//! How words are spelled in a command: with quotes, backslashes and white space of any kind.

use vstd::prelude::*;

use crate::import_laws::{
    at_word_end, between_words, is_plain, lemma_read_in_parts, lemma_read_one,
};
use crate::parser::{words, Lexer, ParseErrorModel};
use crate::text::is_white_space;
use crate::text_laws::{is_blank, law_trim_takes_off_what_surrounds};

verus! {

/// A way to write some characters of a word.
pub enum Fragment {
    /// A character that stands for itself.
    Plain(char),
    /// Any character behind a backslash.
    Escaped(char),
    /// Characters in single quotes.
    Single(Seq<char>),
    /// Characters in double quotes, with a backslash in front of quotes and backslashes.
    Double(Seq<char>),
}

/// The characters of a text with a backslash in front of double quotes and backslashes.
pub open spec fn escaped_inside(s: Seq<char>) -> Seq<char>
    decreases s.len(),
{
    if s.len() == 0 {
        Seq::empty()
    } else if s.last() == '"' || s.last() == '\\' {
        escaped_inside(s.drop_last()) + seq!['\\', s.last()]
    } else {
        escaped_inside(s.drop_last()) + seq![s.last()]
    }
}

impl Fragment {
    pub open spec fn is_valid(self) -> bool {
        match self {
            Fragment::Plain(c) => is_plain(c),
            Fragment::Escaped(c) => true,
            Fragment::Single(s) => !s.contains('\''),
            Fragment::Double(s) => true,
        }
    }

    /// How the fragment is written.
    pub open spec fn spelling(self) -> Seq<char> {
        match self {
            Fragment::Plain(c) => seq![c],
            Fragment::Escaped(c) => seq!['\\', c],
            Fragment::Single(s) => seq!['\''] + s + seq!['\''],
            Fragment::Double(s) => seq!['"'] + escaped_inside(s) + seq!['"'],
        }
    }

    /// What the fragment stands for.
    pub open spec fn meaning(self) -> Seq<char> {
        match self {
            Fragment::Plain(c) => seq![c],
            Fragment::Escaped(c) => seq![c],
            Fragment::Single(s) => s,
            Fragment::Double(s) => s,
        }
    }
}

/// Whether a word is made of at least one fragment, and of valid ones.
pub open spec fn is_word(fragments: Seq<Fragment>) -> bool {
    fragments.len() > 0 && forall|i: int|
        0 <= i < fragments.len() ==> (#[trigger] fragments[i]).is_valid()
}

/// How a word is written.
pub open spec fn spelling_of(fragments: Seq<Fragment>) -> Seq<char>
    decreases fragments.len(),
{
    if fragments.len() == 0 {
        Seq::empty()
    } else {
        spelling_of(fragments.drop_last()) + fragments.last().spelling()
    }
}

/// What a word stands for.
pub open spec fn meaning_of(fragments: Seq<Fragment>) -> Seq<char>
    decreases fragments.len(),
{
    if fragments.len() == 0 {
        Seq::empty()
    } else {
        meaning_of(fragments.drop_last()) + fragments.last().meaning()
    }
}

/// A lexer in the middle of a word, outside quotes.
pub open spec fn within_word(tokens: Seq<Seq<char>>, word: Seq<char>, started: bool) -> Lexer {
    Lexer { tokens, current: word, quote: None, escaping: false, started }
}

/// A lexer inside quotes.
pub open spec fn inside_quotes(tokens: Seq<Seq<char>>, word: Seq<char>, quote: char) -> Lexer {
    Lexer { tokens, current: word, quote: Some(quote), escaping: false, started: true }
}

/// A backslash and the character behind it are read as that character.
proof fn lemma_read_escaped(lexer: Lexer, c: char)
    requires
        !lexer.escaping,
        lexer.quote != Some('\''),
    ensures
        lexer.read(seq!['\\', c]) == (Lexer {
            current: lexer.current.push(c),
            started: true,
            ..lexer
        }),
{
    assert(seq!['\\', c] =~= seq!['\\'] + seq![c]);
    lemma_read_in_parts(lexer, seq!['\\'], seq![c]);
    lemma_read_one(lexer, '\\');
    lemma_read_one(lexer.step('\\'), c);
}

/// What stands inside single quotes is read as it is.
proof fn lemma_inside_single(tokens: Seq<Seq<char>>, word: Seq<char>, s: Seq<char>)
    requires
        !s.contains('\''),
    ensures
        inside_quotes(tokens, word, '\'').read(s) == inside_quotes(tokens, word + s, '\''),
    decreases s.len(),
{
    if s.len() == 0 {
        assert(word + s =~= word);
    } else {
        let front = s.drop_last();
        assert forall|c: char| front.contains(c) implies s.contains(c) by {
            let i = choose|i: int| 0 <= i < front.len() && front[i] == c;
            assert(s[i] == c);
        }
        lemma_inside_single(tokens, word, front);
        assert(s.contains(s.last()));
        assert((word + front).push(s.last()) =~= word + s);
    }
}

/// What stands inside double quotes is read without the backslashes in front of quotes and
/// backslashes.
proof fn lemma_inside_double(tokens: Seq<Seq<char>>, word: Seq<char>, s: Seq<char>)
    ensures
        inside_quotes(tokens, word, '"').read(escaped_inside(s)) == inside_quotes(
            tokens,
            word + s,
            '"',
        ),
    decreases s.len(),
{
    let lexer = inside_quotes(tokens, word, '"');
    if s.len() == 0 {
        assert(word + s =~= word);
    } else {
        let front = s.drop_last();
        let c = s.last();
        lemma_inside_double(tokens, word, front);
        let before = inside_quotes(tokens, word + front, '"');
        assert((word + front).push(c) =~= word + s);
        if c == '"' || c == '\\' {
            lemma_read_in_parts(lexer, escaped_inside(front), seq!['\\', c]);
            lemma_read_escaped(before, c);
        } else {
            lemma_read_in_parts(lexer, escaped_inside(front), seq![c]);
            lemma_read_one(before, c);
        }
    }
}

/// A fragment adds what it stands for to the word.
proof fn lemma_read_fragment(
    tokens: Seq<Seq<char>>,
    word: Seq<char>,
    started: bool,
    fragment: Fragment,
)
    requires
        fragment.is_valid(),
    ensures
        within_word(tokens, word, started).read(fragment.spelling()) == within_word(
            tokens,
            word + fragment.meaning(),
            true,
        ),
{
    let lexer = within_word(tokens, word, started);
    match fragment {
        Fragment::Plain(c) => {
            lemma_read_one(lexer, c);
            assert(word.push(c) =~= word + seq![c]);
        },
        Fragment::Escaped(c) => {
            lemma_read_escaped(lexer, c);
            assert(word.push(c) =~= word + seq![c]);
        },
        Fragment::Single(s) => {
            lemma_read_in_parts(lexer, seq!['\''] + s, seq!['\'']);
            lemma_read_in_parts(lexer, seq!['\''], s);
            lemma_read_one(lexer, '\'');
            assert(lexer.step('\'') == inside_quotes(tokens, word, '\''));
            lemma_inside_single(tokens, word, s);
            lemma_read_one(inside_quotes(tokens, word + s, '\''), '\'');
        },
        Fragment::Double(s) => {
            let inner = escaped_inside(s);
            lemma_read_in_parts(lexer, seq!['"'] + inner, seq!['"']);
            lemma_read_in_parts(lexer, seq!['"'], inner);
            lemma_read_one(lexer, '"');
            assert(lexer.step('"') == inside_quotes(tokens, word, '"'));
            lemma_inside_double(tokens, word, s);
            lemma_read_one(inside_quotes(tokens, word + s, '"'), '"');
        },
    }
}

/// A word is read as what its fragments stand for.
proof fn lemma_read_word(tokens: Seq<Seq<char>>, fragments: Seq<Fragment>)
    requires
        is_word(fragments),
    ensures
        between_words(tokens).read(spelling_of(fragments)) == at_word_end(
            tokens,
            meaning_of(fragments),
        ),
    decreases fragments.len(),
{
    let front = fragments.drop_last();
    let last = fragments.last();
    assert(last == fragments[fragments.len() - 1]);
    let lexer = between_words(tokens);
    lemma_read_in_parts(lexer, spelling_of(front), last.spelling());
    if front.len() == 0 {
        assert(lexer.read(spelling_of(front)) == within_word(tokens, Seq::empty(), false));
        assert(meaning_of(front) == Seq::<char>::empty());
        lemma_read_fragment(tokens, Seq::empty(), false, last);
    } else {
        assert forall|i: int| 0 <= i < front.len() implies (#[trigger] front[i]).is_valid() by {
            assert(front[i] == fragments[i]);
        }
        lemma_read_word(tokens, front);
        lemma_read_fragment(tokens, meaning_of(front), true, last);
    }
}

/// White space behind a word ends it, however much there is.
proof fn lemma_read_gap(tokens: Seq<Seq<char>>, word: Seq<char>, gap: Seq<char>)
    requires
        gap.len() > 0,
        is_blank(gap),
    ensures
        at_word_end(tokens, word).read(gap) == between_words(tokens.push(word)),
    decreases gap.len(),
{
    let front = gap.drop_last();
    let c = gap.last();
    assert(c == gap[gap.len() - 1]);
    assert(is_white_space(c));
    if front.len() == 0 {
        assert(at_word_end(tokens, word).read(front) == at_word_end(tokens, word));
    } else {
        assert forall|i: int| 0 <= i < front.len() implies is_white_space(#[trigger] front[i]) by {
            assert(front[i] == gap[i]);
        }
        lemma_read_gap(tokens, word, front);
    }
}

/// Words, each but the first behind its gap.
pub open spec fn spread(list: Seq<Seq<Fragment>>, gaps: Seq<Seq<char>>) -> Seq<char>
    decreases list.len(),
{
    if list.len() == 0 {
        Seq::empty()
    } else if list.len() == 1 {
        spelling_of(list[0])
    } else {
        spread(list.drop_last(), gaps) + gaps[list.len() - 2] + spelling_of(list.last())
    }
}

/// What the words of a list stand for.
pub open spec fn meanings(list: Seq<Seq<Fragment>>) -> Seq<Seq<char>> {
    list.map_values(|fragments: Seq<Fragment>| meaning_of(fragments))
}

/// Whether words can stand in a command with these gaps between them: every gap is white space, and
/// the last character of the command is not.
pub open spec fn can_be_spread(list: Seq<Seq<Fragment>>, gaps: Seq<Seq<char>>) -> bool {
    &&& list.len() > 0
    &&& gaps.len() >= list.len() - 1
    &&& forall|i: int| 0 <= i < list.len() ==> is_word(#[trigger] list[i])
    &&& forall|i: int| 0 <= i < gaps.len() ==> (#[trigger] gaps[i]).len() > 0 && is_blank(gaps[i])
}

proof fn lemma_read_spread(list: Seq<Seq<Fragment>>, gaps: Seq<Seq<char>>)
    requires
        can_be_spread(list, gaps),
    ensures
        Lexer::start().read(spread(list, gaps)) == at_word_end(
            meanings(list).drop_last(),
            meaning_of(list.last()),
        ),
        spread(list, gaps).len() > 0,
        !is_white_space(spread(list, gaps)[0]),
    decreases list.len(),
{
    let start = Lexer::start();
    let none = Seq::<Seq<char>>::empty();
    assert(start == between_words(none));
    assert(is_word(list[list.len() - 1]));
    lemma_first_of_word(list.last());
    if list.len() == 1 {
        lemma_read_word(none, list[0]);
        assert(meanings(list).drop_last() =~= none);
    } else {
        let front = list.drop_last();
        assert forall|i: int| 0 <= i < front.len() implies is_word(#[trigger] front[i]) by {
            assert(front[i] == list[i]);
        }
        lemma_read_spread(front, gaps);
        let gap = gaps[list.len() - 2];
        let last = spelling_of(list.last());
        lemma_read_in_parts(start, spread(front, gaps) + gap, last);
        lemma_read_in_parts(start, spread(front, gaps), gap);
        lemma_read_gap(meanings(front).drop_last(), meaning_of(front.last()), gap);
        assert(meanings(front).drop_last().push(meaning_of(front.last())) =~= meanings(
            list,
        ).drop_last());
        lemma_read_word(meanings(list).drop_last(), list.last());
        assert(spread(list, gaps)[0] == spread(front, gaps)[0]);
    }
}

/// A word does not begin with white space.
proof fn lemma_first_of_word(fragments: Seq<Fragment>)
    requires
        is_word(fragments),
    ensures
        spelling_of(fragments).len() > 0,
        !is_white_space(spelling_of(fragments)[0]),
    decreases fragments.len(),
{
    let front = fragments.drop_last();
    assert(fragments[fragments.len() - 1].is_valid());
    if front.len() > 0 {
        assert forall|i: int| 0 <= i < front.len() implies (#[trigger] front[i]).is_valid() by {
            assert(front[i] == fragments[i]);
        }
        lemma_first_of_word(front);
        assert(spelling_of(fragments)[0] == spelling_of(front)[0]);
    } else {
        assert(spelling_of(fragments) =~= fragments.last().spelling());
    }
}

/// However its words are spelled and whatever white space stands around them and between them, a
/// command is split into what the words stand for. It must not end in white space behind a
/// backslash, since white space at the end is taken off first.
pub proof fn law_spelled_words(
    a: Seq<char>,
    list: Seq<Seq<Fragment>>,
    gaps: Seq<Seq<char>>,
    b: Seq<char>,
)
    requires
        is_blank(a),
        is_blank(b),
        can_be_spread(list, gaps),
        !is_white_space(spread(list, gaps).last()),
    ensures
        words(a + spread(list, gaps) + b) == Ok::<_, ParseErrorModel>(meanings(list)),
{
    lemma_read_spread(list, gaps);
    law_trim_takes_off_what_surrounds(a, spread(list, gaps), b);
    assert(meanings(list).drop_last().push(meaning_of(list.last())) =~= meanings(list));
}

/// White space alone holds no words.
pub proof fn law_blank_commands_hold_no_words(a: Seq<char>)
    requires
        is_blank(a),
    ensures
        words(a) == Ok::<_, ParseErrorModel>(Seq::<Seq<char>>::empty()),
{
    let empty = Seq::<char>::empty();
    assert(a + empty + empty =~= a);
    law_trim_takes_off_what_surrounds(a, empty, empty);
}

/// A quote that is not closed is refused, whatever stands in front of it and in it; a backslash at
/// the very end stands for itself.
pub proof fn law_open_ends(
    list: Seq<Seq<Fragment>>,
    gaps: Seq<Seq<char>>,
    single: Seq<char>,
    double: Seq<char>,
)
    requires
        can_be_spread(list, gaps),
        !single.contains('\''),
        single.len() > 0 ==> !is_white_space(single.last()),
        double.len() > 0 ==> !is_white_space(double.last()),
    ensures
        words(spread(list, gaps) + (seq!['\''] + single)) == Err::<Seq<Seq<char>>, _>(
            ParseErrorModel::UnclosedQuote,
        ),
        words(spread(list, gaps) + (seq!['"'] + escaped_inside(double))) == Err::<
            Seq<Seq<char>>,
            _,
        >(ParseErrorModel::UnclosedQuote),
        words(spread(list, gaps) + seq!['\\']) == Ok::<_, ParseErrorModel>(
            meanings(list).drop_last().push(meaning_of(list.last()).push('\\')),
        ),
{
    lemma_read_spread(list, gaps);
    let start = Lexer::start();
    let text = spread(list, gaps);
    let tokens = meanings(list).drop_last();
    let word = meaning_of(list.last());
    let lexer = at_word_end(tokens, word);
    let empty = Seq::<char>::empty();

    let quoted = text + (seq!['\''] + single);
    assert(quoted.last() == if single.len() > 0 {
        single.last()
    } else {
        '\''
    });
    assert(quoted[0] == text[0]);
    assert(empty + quoted + empty =~= quoted);
    law_trim_takes_off_what_surrounds(empty, quoted, empty);
    lemma_read_in_parts(start, text, seq!['\''] + single);
    lemma_read_in_parts(lexer, seq!['\''], single);
    lemma_read_one(lexer, '\'');
    assert(lexer.step('\'') == inside_quotes(tokens, word, '\''));
    lemma_inside_single(tokens, word, single);

    let inner = escaped_inside(double);
    let open = text + (seq!['"'] + inner);
    assert(double.len() > 0 ==> inner.last() == double.last() && inner.len() > 0);
    assert(double.len() == 0 ==> inner.len() == 0);
    assert(open.last() == if double.len() > 0 {
        double.last()
    } else {
        '"'
    });
    assert(open[0] == text[0]);
    assert(empty + open + empty =~= open);
    law_trim_takes_off_what_surrounds(empty, open, empty);
    lemma_read_in_parts(start, text, seq!['"'] + inner);
    lemma_read_in_parts(lexer, seq!['"'], inner);
    lemma_read_one(lexer, '"');
    assert(lexer.step('"') == inside_quotes(tokens, word, '"'));
    lemma_inside_double(tokens, word, double);

    let escaping = text + seq!['\\'];
    assert(escaping.last() == '\\');
    assert(escaping[0] == text[0]);
    assert(empty + escaping + empty =~= escaping);
    law_trim_takes_off_what_surrounds(empty, escaping, empty);
    lemma_read_in_parts(start, text, seq!['\\']);
    lemma_read_one(lexer, '\\');
}

} // verus!
