//! What holds of every import: that it is safe, that forwards read back as they were written, and
//! how words are quoted.

use vstd::prelude::*;

use crate::model::{
    allowed_flags, arguments_safe, options_with_values, valid_host_target, TunnelModel,
};
use crate::parser::{
    forward_of, import_of, port_of, split_destination, split_local, words, ForwardModel, Lexer,
    ParseErrorModel, Reading, Step,
};
use crate::text::{
    decimal, is_digit, is_white_space, law_number_round_trip, lemma_decimal, lemma_last_index,
    lemma_last_index_is, lemma_last_index_none, rsplit_once, trim,
};

verus! {

/// Safe arguments in front of safe arguments are safe.
proof fn lemma_safe_arguments_join(a: Seq<Seq<char>>, b: Seq<Seq<char>>)
    requires
        arguments_safe(a),
        arguments_safe(b),
    ensures
        arguments_safe(a + b),
    decreases a.len(),
{
    if a.len() == 0 {
        assert(a + b =~= b);
    } else {
        assert((a + b)[0] == a[0]);
        assert((a + b).skip(1) =~= a.skip(1) + b);
        if allowed_flags().contains(a[0]) || !options_with_values().contains(a[0]) {
            lemma_safe_arguments_join(a.skip(1), b);
        } else {
            assert((a + b)[1] == a[1]);
            assert((a + b).skip(2) =~= a.skip(2) + b);
            lemma_safe_arguments_join(a.skip(2), b);
        }
    }
}

/// Reading on keeps the arguments safe.
proof fn lemma_read_keeps_arguments_safe(reading: Reading, tokens: Seq<Seq<char>>)
    requires
        arguments_safe(reading.arguments),
    ensures
        reading.read(tokens) matches Ok(end) ==> arguments_safe(end.arguments),
    decreases tokens.len(),
{
    if tokens.len() > 0 {
        if let Step::Taken(next, words) = reading.step(tokens) {
            if next.arguments != reading.arguments {
                if words == 1 {
                    let added = seq![tokens[0]];
                    assert(added.skip(1) =~= Seq::empty());
                    assert(arguments_safe(Seq::empty()));
                    assert(arguments_safe(added));
                    lemma_safe_arguments_join(reading.arguments, added);
                    assert(next.arguments =~= reading.arguments + added);
                } else {
                    let added = seq![tokens[0], tokens[1]];
                    assert(added.skip(2) =~= Seq::empty());
                    assert(arguments_safe(Seq::empty()));
                    assert(arguments_safe(added));
                    lemma_safe_arguments_join(reading.arguments, added);
                    assert(next.arguments =~= reading.arguments + added);
                }
            }
            lemma_read_keeps_arguments_safe(next, tokens.skip(words));
        }
    }
}

/// What is imported may be run: the host cannot be taken for an option, the added arguments are on
/// the lists of safe ones, the ports are not zero, and neither the destination nor a given bind
/// address is empty.
pub proof fn law_import_is_safe(command: Seq<char>)
    ensures
        import_of(command) matches Ok(imported) ==> {
            &&& valid_host_target(imported.ssh_host)
            &&& arguments_safe(imported.additional_arguments)
            &&& imported.local_port > 0
            &&& imported.destination_port > 0
            &&& imported.destination_host.len() > 0
            &&& imported.bind_address matches Some(address) ==> address.len() > 0
        },
{
    if let Ok(tokens) = words(command) {
        assert(arguments_safe(Seq::empty()));
        lemma_read_keeps_arguments_safe(Reading::start(), tokens.skip(1));
    }
}

/// Whether reading a forward gives back the tunnel that wrote it. The ports must not be zero, a
/// given bind address and the destination not empty. A destination with a colon must have no
/// opening bracket, since it is written in brackets; one without must not end in a closing one.
pub open spec fn forward_reads_back(tunnel: TunnelModel) -> bool {
    &&& tunnel.local_port > 0
    &&& tunnel.destination_port > 0
    &&& tunnel.bind_address matches Some(address) ==> address.len() > 0
    &&& tunnel.destination_host.len() > 0
    &&& if tunnel.destination_host.contains(':') {
        !tunnel.destination_host.contains('[')
    } else {
        tunnel.destination_host.last() != ']'
    }
}

/// The last `c` of a string stands in front of a part without `c`.
proof fn lemma_split_behind(front: Seq<char>, c: char, back: Seq<char>)
    requires
        forall|i: int| 0 <= i < back.len() ==> #[trigger] back[i] != c,
    ensures
        rsplit_once(front + seq![c] + back, c) == Some((front, back)),
{
    let s = front + seq![c] + back;
    assert forall|j: int| front.len() < j < s.len() implies #[trigger] s[j] != c by {
        assert(s[j] == back[j - front.len() - 1]);
    }
    lemma_last_index_is(s, c, front.len() as int);
    assert(s.take(front.len() as int) =~= front);
    assert(s.skip(front.len() as int + 1) =~= back);
}

/// A port in decimal holds no colon, and reads back.
proof fn lemma_port(port: u16)
    requires
        port > 0,
    ensures
        port_of(decimal(port as nat)) == Some(port),
        forall|i: int|
            0 <= i < decimal(port as nat).len() ==> #[trigger] decimal(port as nat)[i] != ':',
{
    law_number_round_trip(port);
    lemma_decimal(port as nat);
    assert forall|i: int| 0 <= i < decimal(port as nat).len() implies #[trigger] decimal(
        port as nat,
    )[i] != ':' by {
        assert(is_digit(decimal(port as nat)[i]));
    }
}

/// The local side of a written forward reads back.
proof fn lemma_local_reads_back(tunnel: TunnelModel)
    requires
        tunnel.local_port > 0,
        tunnel.bind_address matches Some(address) ==> address.len() > 0,
    ensures
        split_local(tunnel.forward_local()) == Some((tunnel.bind_address, tunnel.local_port)),
{
    let port = decimal(tunnel.local_port as nat);
    lemma_port(tunnel.local_port);
    match tunnel.bind_address {
        Some(address) => {
            lemma_split_behind(address, ':', port);
        },
        None => {
            lemma_last_index_none(port, ':');
        },
    }
}

/// The destination of a written forward reads back.
proof fn lemma_destination_reads_back(tunnel: TunnelModel)
    requires
        forward_reads_back(tunnel),
    ensures
        split_destination(tunnel.forward_local() + seq![':'] + tunnel.forward_destination())
            == Some((tunnel.forward_local(), tunnel.destination_host)),
{
    let local = tunnel.forward_local();
    let host = tunnel.destination_host;
    let s = local + seq![':'] + tunnel.forward_destination();
    if host.contains(':') {
        assert(host[0] != '[') by {
            assert(host.contains(host[0]));
        }
        let k: int = local.len() as int + 1;
        assert(s.last() == ']');
        assert(s[k] == '[');
        assert forall|j: int| k < j < s.len() implies #[trigger] s[j] != '[' by {
            if j < s.len() - 1 {
                assert(s[j] == host[j - k - 1]);
                assert(host.contains(s[j]));
            }
        }
        lemma_last_index_is(s, '[', k);
        assert(s.take(k - 1) =~= local);
        assert(s.subrange(k + 1, s.len() - 1) =~= host);
    } else {
        assert(s.last() == host.last());
        assert forall|i: int| 0 <= i < host.len() implies #[trigger] host[i] != ':' by {
            assert(host.contains(host[i]));
        }
        lemma_split_behind(local, ':', host);
    }
}

/// A forward that was written for a tunnel reads back as the tunnel's own ports, destination and
/// bind address, exactly where `forward_reads_back` says so.
pub proof fn law_forward_round_trip(tunnel: TunnelModel)
    ensures
        forward_reads_back(tunnel) <==> forward_of(tunnel.forward_spec()) == Some(
            ForwardModel {
                local_port: tunnel.local_port,
                destination_host: tunnel.destination_host,
                destination_port: tunnel.destination_port,
                bind_address: tunnel.bind_address,
            },
        ),
{
    let port = decimal(tunnel.destination_port as nat);
    let front = tunnel.forward_local() + seq![':'] + tunnel.forward_destination();
    assert(tunnel.forward_spec() == front + seq![':'] + port);
    lemma_decimal(tunnel.destination_port as nat);
    assert forall|i: int| 0 <= i < port.len() implies #[trigger] port[i] != ':' by {
        assert(is_digit(port[i]));
    }
    lemma_split_behind(front, ':', port);
    if forward_reads_back(tunnel) {
        lemma_port(tunnel.destination_port);
        lemma_local_reads_back(tunnel);
        lemma_destination_reads_back(tunnel);
    } else if tunnel.destination_host.len() > 0 && if tunnel.destination_host.contains(':') {
        tunnel.destination_host.contains('[')
    } else {
        tunnel.destination_host.last() == ']'
    } {
        lemma_wrong_destination(tunnel);
    }
}

/// A destination that was read and holds a colon stood in brackets, and holds no opening one.
proof fn lemma_read_destination(s: Seq<char>)
    ensures
        split_destination(s) matches Some((front, host)) ==> (host.contains(':') ==> !host.contains(
            '[',
        )),
{
    lemma_last_index(s, '[');
    lemma_last_index(s, ':');
    if let Some((front, host)) = split_destination(s) {
        if host.contains(':') && host.contains('[') {
            let i = choose|i: int| 0 <= i < host.len() && host[i] == '[';
            let j = choose|j: int| 0 <= j < host.len() && host[j] == ':';
            let start = s.len() - host.len();
            if s.last() == ']' {
                assert(s[start - 1 + i] == '[');
            } else {
                assert(s[start + j] == ':');
            }
        }
    }
}

/// An imported forward is the one that the tunnel runs with: the `-L` that is written for it asks
/// for what was imported. A destination without a colon must not end in a closing bracket.
pub proof fn law_imported_forward_is_kept(command: Seq<char>, tunnel: TunnelModel)
    requires
        import_of(command) matches Ok(imported) && {
            &&& tunnel.local_port == imported.local_port
            &&& tunnel.destination_host == imported.destination_host
            &&& tunnel.destination_port == imported.destination_port
            &&& tunnel.bind_address == imported.bind_address
        },
        tunnel.destination_host.contains(':') || tunnel.destination_host.last() != ']',
    ensures
        forward_of(tunnel.forward_spec()) == Some(
            ForwardModel {
                local_port: tunnel.local_port,
                destination_host: tunnel.destination_host,
                destination_port: tunnel.destination_port,
                bind_address: tunnel.bind_address,
            },
        ),
{
    law_import_is_safe(command);
    let tokens = words(command)->Ok_0;
    let reading = Reading::start().read(tokens.skip(1))->Ok_0;
    let (front, port) = rsplit_once(reading.forward->0, ':')->0;
    lemma_read_destination(front);
    law_forward_round_trip(tunnel);
}

/// Where the destination is not fit to be read back, something else is read.
proof fn lemma_wrong_destination(tunnel: TunnelModel)
    requires
        tunnel.destination_host.len() > 0,
        if tunnel.destination_host.contains(':') {
            tunnel.destination_host.contains('[')
        } else {
            tunnel.destination_host.last() == ']'
        },
    ensures
        split_destination(
            tunnel.forward_local() + seq![':'] + tunnel.forward_destination(),
        ) matches Some((local, host)) ==> host != tunnel.destination_host,
{
    let host = tunnel.destination_host;
    let local = tunnel.forward_local();
    let s = local + seq![':'] + tunnel.forward_destination();
    lemma_last_index(s, '[');
    lemma_last_index(s, ':');
    if host.contains(':') {
        let j = choose|j: int| 0 <= j < host.len() && host[j] == '[';
        if host[0] == '[' {
            assert(s[local.len() + 1 + j] == '[');
        } else {
            assert(s[local.len() + 2 + j] == '[');
        }
        if s.last() == ']' {
        } else {
            let m = choose|m: int| 0 <= m < host.len() && host[m] == ':';
            assert(s[local.len() + 1 + m] == ':');
        }
    } else {
        assert(s.last() == ']');
    }
}

/// A lexer between two words.
pub open spec fn between_words(tokens: Seq<Seq<char>>) -> Lexer {
    Lexer { tokens, current: Seq::empty(), quote: None, escaping: false, started: false }
}

/// A lexer at the end of a word.
pub open spec fn at_word_end(tokens: Seq<Seq<char>>, word: Seq<char>) -> Lexer {
    Lexer { tokens, current: word, quote: None, escaping: false, started: true }
}

/// Reading two parts is reading the one and then the other.
pub proof fn lemma_read_in_parts(lexer: Lexer, a: Seq<char>, b: Seq<char>)
    ensures
        lexer.read(a + b) == lexer.read(a).read(b),
    decreases b.len(),
{
    if b.len() == 0 {
        assert(a + b =~= a);
    } else {
        assert((a + b).drop_last() =~= a + b.drop_last());
        assert((a + b).last() == b.last());
        lemma_read_in_parts(lexer, a, b.drop_last());
    }
}

/// Reading one character is one step.
pub proof fn lemma_read_one(lexer: Lexer, c: char)
    ensures
        lexer.read(seq![c]) == lexer.step(c),
{
    assert(seq![c].drop_last() =~= Seq::<char>::empty());
    assert(lexer.read(Seq::<char>::empty()) == lexer);
    assert(seq![c].last() == c);
}

/// Whether a character stands for itself outside quotes.
pub open spec fn is_plain(c: char) -> bool {
    !is_white_space(c) && c != '\\' && c != '"' && c != '\''
}

/// Whether a word is not empty and every character of it stands for itself.
pub open spec fn is_plain_word(word: Seq<char>) -> bool {
    word.len() > 0 && forall|i: int| 0 <= i < word.len() ==> is_plain(#[trigger] word[i])
}

/// A plain word is read as it stands.
proof fn lemma_read_plain(tokens: Seq<Seq<char>>, word: Seq<char>)
    requires
        is_plain_word(word),
    ensures
        between_words(tokens).read(word) == at_word_end(tokens, word),
    decreases word.len(),
{
    let front = word.drop_last();
    let lexer = between_words(tokens);
    assert(is_plain(word[word.len() - 1]));
    if front.len() == 0 {
        assert(lexer.read(front) == lexer);
        assert(Seq::empty().push(word.last()) =~= word);
    } else {
        assert forall|i: int| 0 <= i < front.len() implies is_plain(#[trigger] front[i]) by {
            assert(front[i] == word[i]);
        }
        lemma_read_plain(tokens, front);
        assert(front.push(word.last()) =~= word);
    }
}

/// A word in single quotes.
pub open spec fn quoted(word: Seq<char>) -> Seq<char> {
    seq!['\''] + word + seq!['\'']
}

/// Inside single quotes every other character stands for itself.
proof fn lemma_read_inside_quotes(tokens: Seq<Seq<char>>, word: Seq<char>)
    requires
        !word.contains('\''),
    ensures
        between_words(tokens).step('\'').read(word) == (Lexer {
            tokens,
            current: word,
            quote: Some('\''),
            escaping: false,
            started: true,
        }),
    decreases word.len(),
{
    if word.len() == 0 {
        assert(word =~= Seq::empty());
        assert(!is_white_space('\''));
    } else {
        assert forall|c: char| word.drop_last().contains(c) implies word.contains(c) by {
            let i = choose|i: int| 0 <= i < word.drop_last().len() && word.drop_last()[i] == c;
            assert(word[i] == c);
        }
        lemma_read_inside_quotes(tokens, word.drop_last());
        assert(word.contains(word.last()));
        assert(word.drop_last().push(word.last()) =~= word);
    }
}

/// A quoted word is read as what stands between the quotes.
proof fn lemma_read_quoted(tokens: Seq<Seq<char>>, word: Seq<char>)
    requires
        !word.contains('\''),
    ensures
        between_words(tokens).read(quoted(word)) == at_word_end(tokens, word),
{
    let lexer = between_words(tokens);
    lemma_read_in_parts(lexer, seq!['\''] + word, seq!['\'']);
    lemma_read_in_parts(lexer, seq!['\''], word);
    lemma_read_one(lexer, '\'');
    lemma_read_inside_quotes(tokens, word);
    lemma_read_one(lexer.read(seq!['\''] + word), '\'');
}

/// Words with one blank between each two.
pub open spec fn spaced(list: Seq<Seq<char>>) -> Seq<char>
    decreases list.len(),
{
    if list.len() == 0 {
        Seq::empty()
    } else if list.len() == 1 {
        list[0]
    } else {
        spaced(list.drop_last()) + seq![' '] + list.last()
    }
}

/// Whether a piece of a command begins and ends with something else than white space.
pub open spec fn has_firm_ends(piece: Seq<char>) -> bool {
    piece.len() > 0 && !is_white_space(piece[0]) && !is_white_space(piece.last())
}

/// Pieces with firm ends have firm ends together.
proof fn lemma_spaced_ends(list: Seq<Seq<char>>)
    requires
        list.len() > 0,
        forall|i: int| 0 <= i < list.len() ==> has_firm_ends(#[trigger] list[i]),
    ensures
        has_firm_ends(spaced(list)),
    decreases list.len(),
{
    assert(has_firm_ends(list[list.len() - 1]));
    if list.len() > 1 {
        let front = list.drop_last();
        assert forall|i: int| 0 <= i < front.len() implies has_firm_ends(#[trigger] front[i]) by {
            assert(front[i] == list[i]);
        }
        lemma_spaced_ends(front);
        assert(spaced(list)[0] == spaced(front)[0]);
        assert(spaced(list).last() == list.last().last());
    } else {
        assert(has_firm_ends(list[0]));
    }
}

/// Nothing is trimmed from a string with firm ends.
proof fn lemma_trim_firm(s: Seq<char>)
    requires
        has_firm_ends(s) || s.len() == 0,
    ensures
        trim(s) == s,
{
}

/// Pieces that each read as a word read, one blank apart, as the words.
proof fn lemma_read_spaced(pieces: Seq<Seq<char>>, list: Seq<Seq<char>>)
    requires
        pieces.len() == list.len() > 0,
        forall|i: int, tokens: Seq<Seq<char>>|
            #![trigger pieces[i], between_words(tokens)]
            0 <= i < pieces.len() ==> between_words(tokens).read(pieces[i]) == at_word_end(
                tokens,
                list[i],
            ),
    ensures
        Lexer::start().read(spaced(pieces)) == at_word_end(list.drop_last(), list.last()),
    decreases pieces.len(),
{
    let start = Lexer::start();
    assert(start == between_words(Seq::empty()));
    if pieces.len() == 1 {
        assert(list.drop_last() =~= Seq::empty());
        assert(start.read(pieces[0]) == at_word_end(Seq::empty(), list[0]));
    } else {
        let front = pieces.drop_last();
        let words = list.drop_last();
        assert forall|i: int, tokens: Seq<Seq<char>>|
            #![trigger front[i], between_words(tokens)]
            0 <= i < front.len() implies between_words(tokens).read(front[i]) == at_word_end(
            tokens,
            words[i],
        ) by {
            assert(front[i] == pieces[i]);
        }
        lemma_read_spaced(front, words);
        lemma_read_in_parts(start, spaced(front) + seq![' '], pieces.last());
        lemma_read_in_parts(start, spaced(front), seq![' ']);
        lemma_read_one(start.read(spaced(front)), ' ');
        assert(words.drop_last().push(words.last()) =~= words);
        assert(start.read(spaced(front) + seq![' ']) == between_words(words));
        let last = pieces.len() - 1;
        assert(pieces[last] == pieces.last());
        assert(between_words(words).read(pieces[last]) == at_word_end(words, list[last]));
    }
}

/// A command of plain words with one blank between each two is split into these words.
pub proof fn law_plain_words(list: Seq<Seq<char>>)
    requires
        forall|i: int| 0 <= i < list.len() ==> is_plain_word(#[trigger] list[i]),
    ensures
        words(spaced(list)) == Ok::<_, ParseErrorModel>(list),
{
    if list.len() == 0 {
        lemma_trim_firm(spaced(list));
        assert(list =~= Seq::empty());
    } else {
        assert forall|i: int| 0 <= i < list.len() implies has_firm_ends(#[trigger] list[i]) by {
            assert(is_plain_word(list[i]));
            assert(is_plain(list[i][0]));
            assert(is_plain(list[i][list[i].len() - 1]));
        }
        lemma_spaced_ends(list);
        lemma_trim_firm(spaced(list));
        assert forall|i: int, tokens: Seq<Seq<char>>|
            #![trigger list[i], between_words(tokens)]
            0 <= i < list.len() implies between_words(tokens).read(list[i]) == at_word_end(
            tokens,
            list[i],
        ) by {
            assert(is_plain_word(list[i]));
            lemma_read_plain(tokens, list[i]);
        }
        lemma_read_spaced(list, list);
        assert(list.drop_last().push(list.last()) =~= list);
    }
}

/// Words in single quotes, one blank apart, are split into what stands between the quotes, white
/// space, double quotes and backslashes included. A word must hold no single quote.
pub proof fn law_quoted_words(list: Seq<Seq<char>>)
    requires
        forall|i: int| 0 <= i < list.len() ==> !(#[trigger] list[i]).contains('\''),
    ensures
        words(spaced(list.map_values(|word: Seq<char>| quoted(word)))) == Ok::<_, ParseErrorModel>(
            list,
        ),
{
    let pieces = list.map_values(|word: Seq<char>| quoted(word));
    if list.len() == 0 {
        lemma_trim_firm(spaced(pieces));
        assert(list =~= Seq::empty());
    } else {
        assert forall|i: int| 0 <= i < pieces.len() implies has_firm_ends(
            #[trigger] pieces[i],
        ) by {
            assert(pieces[i] == quoted(list[i]));
        }
        lemma_spaced_ends(pieces);
        lemma_trim_firm(spaced(pieces));
        assert forall|i: int, tokens: Seq<Seq<char>>|
            #![trigger pieces[i], between_words(tokens)]
            0 <= i < pieces.len() implies between_words(tokens).read(pieces[i]) == at_word_end(
            tokens,
            list[i],
        ) by {
            assert(pieces[i] == quoted(list[i]));
            lemma_read_quoted(tokens, list[i]);
        }
        lemma_read_spaced(pieces, list);
        assert(list.drop_last().push(list.last()) =~= list);
    }
}

} // verus!
