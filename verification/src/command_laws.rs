//! The grammar of the commands that can be imported: what is made of every command that follows
//! it, that nothing else is imported, and how each other command is refused.

use vstd::prelude::*;

use crate::argument_laws::{is_free_option, is_lone_flag, law_safe_arguments, lemma_lists};
use crate::import_laws::{law_quoted_words, quoted, spaced};
use crate::model::{arguments_safe, safe_openssh_option, valid_host_target};
use crate::parser::{
    file_name, forward_of, import_of, import_of_reading, import_of_words, process_flags, words,
    ImportModel, ParseErrorModel, Reading, Step,
};
use crate::text::{last_index, lemma_last_index, lemma_last_index_is, lemma_trim_keeps_first};

verus! {

/// A part of a command between the executable and the host.
pub enum Part {
    /// A flag that concerns the process, not the tunnel: it is dropped.
    Dropped(Seq<char>),
    /// Safe arguments: they are kept.
    Kept(Seq<Seq<char>>),
    /// A forward in the word behind `-L`.
    Forward(Seq<char>),
    /// A forward in the same word as `-L`.
    AttachedForward(Seq<char>),
}

/// Whether a word is one of the flags that are dropped.
pub open spec fn is_dropped_flag(word: Seq<char>) -> bool {
    word == "-N"@ || word == "-T"@ || word == "-n"@ || word == "-f"@
}

impl Part {
    pub open spec fn is_valid(self) -> bool {
        match self {
            Part::Dropped(word) => is_dropped_flag(word),
            Part::Kept(arguments) => arguments_safe(arguments),
            Part::Forward(forward) => true,
            Part::AttachedForward(forward) => forward.len() > 0,
        }
    }

    /// The words of the part.
    pub open spec fn words(self) -> Seq<Seq<char>> {
        match self {
            Part::Dropped(word) => seq![word],
            Part::Kept(arguments) => arguments,
            Part::Forward(forward) => seq!["-L"@, forward],
            Part::AttachedForward(forward) => seq!["-L"@ + forward],
        }
    }

    /// The arguments that are kept of the part.
    pub open spec fn kept(self) -> Seq<Seq<char>> {
        match self {
            Part::Kept(arguments) => arguments,
            _ => Seq::empty(),
        }
    }

    /// The forwards of the part.
    pub open spec fn forwards(self) -> Seq<Seq<char>> {
        match self {
            Part::Forward(forward) => seq![forward],
            Part::AttachedForward(forward) => seq![forward],
            _ => Seq::empty(),
        }
    }
}

pub open spec fn all_valid(parts: Seq<Part>) -> bool {
    forall|i: int| 0 <= i < parts.len() ==> (#[trigger] parts[i]).is_valid()
}

/// The words of a list of parts, in order.
pub open spec fn words_of(parts: Seq<Part>) -> Seq<Seq<char>>
    decreases parts.len(),
{
    if parts.len() == 0 {
        Seq::empty()
    } else {
        parts[0].words() + words_of(parts.skip(1))
    }
}

/// The arguments that are kept of a list of parts, in order.
pub open spec fn kept_of(parts: Seq<Part>) -> Seq<Seq<char>>
    decreases parts.len(),
{
    if parts.len() == 0 {
        Seq::empty()
    } else {
        parts[0].kept() + kept_of(parts.skip(1))
    }
}

/// The forwards of a list of parts, in order.
pub open spec fn forwards_of(parts: Seq<Part>) -> Seq<Seq<char>>
    decreases parts.len(),
{
    if parts.len() == 0 {
        Seq::empty()
    } else {
        parts[0].forwards() + forwards_of(parts.skip(1))
    }
}

/// A host at the end of a command, with or without the dashes in front of it.
pub open spec fn host_words(dashes: bool, host: Seq<char>) -> Seq<Seq<char>> {
    if dashes {
        seq!["--"@, host]
    } else {
        seq![host]
    }
}

/// A reading of some forward and some arguments, without a host.
pub open spec fn reading_of(forward: Option<Seq<char>>, arguments: Seq<Seq<char>>) -> Reading {
    Reading { forward, ssh_host: None, arguments }
}

/// The words with a meaning of their own differ from safe ones.
proof fn lemma_own_words(word: Seq<char>)
    ensures
        process_flags().contains(word) <==> is_dropped_flag(word),
        is_dropped_flag(word) ==> word.len() == 2 && word[0] == '-' && (word[1] == 'N' || word[1]
            == 'T' || word[1] == 'n' || word[1] == 'f'),
        word == "-L"@ <==> word.len() == 2 && word[0] == '-' && word[1] == 'L',
        word == "--"@ <==> word.len() == 2 && word[0] == '-' && word[1] == '-',
        word.len() > 2 ==> (word.take(2) == "-L"@ <==> word[0] == '-' && word[1] == 'L'),
        "-L"@.len() == 2,
{
    reveal_strlit("-N");
    reveal_strlit("-T");
    reveal_strlit("-n");
    reveal_strlit("-f");
    reveal_strlit("-L");
    reveal_strlit("--");
    let flags = process_flags();
    assert(flags[0] == "-N"@ && flags[1] == "-T"@ && flags[2] == "-n"@ && flags[3] == "-f"@);
    if word.len() == 2 && word[0] == '-' && word[1] == 'L' {
        assert(word =~= "-L"@);
    }
    if word.len() == 2 && word[0] == '-' && word[1] == '-' {
        assert(word =~= "--"@);
    }
    if word.len() > 2 && word[0] == '-' && word[1] == 'L' {
        assert(word.take(2) =~= "-L"@);
    }
    if word.len() > 2 && word.take(2) == "-L"@ {
        assert(word.take(2)[0] == word[0] && word.take(2)[1] == word[1]);
    }
}

/// Safe arguments are taken over as they are.
proof fn lemma_read_safe(
    forward: Option<Seq<char>>,
    arguments: Seq<Seq<char>>,
    safe: Seq<Seq<char>>,
    rest: Seq<Seq<char>>,
)
    requires
        arguments_safe(safe),
    ensures
        reading_of(forward, arguments).read(safe + rest) == reading_of(
            forward,
            arguments + safe,
        ).read(rest),
    decreases safe.len(),
{
    let reading = reading_of(forward, arguments);
    if safe.len() == 0 {
        assert(safe + rest =~= rest);
        assert(arguments + safe =~= arguments);
    } else {
        let tokens = safe + rest;
        let word = safe[0];
        assert(tokens[0] == word);
        assert(tokens.skip(1) =~= safe.skip(1) + rest);
        lemma_lists(word);
        lemma_own_words(word);
        if word.len() > 2 {
            lemma_lists(word.take(2));
            assert(word.take(2)[0] == word[0] && word.take(2)[1] == word[1]);
        }
        if is_lone_flag(word) {
            lemma_read_safe(forward, arguments.push(word), safe.skip(1), rest);
            assert(reading.step(tokens) == Step::Taken(
                reading_of(forward, arguments.push(word)),
                1,
            ));
            assert(arguments.push(word) + safe.skip(1) =~= arguments + safe);
        } else if is_free_option(word) || word == "-o"@ {
            let more = arguments.push(word).push(safe[1]);
            assert(tokens[1] == safe[1]);
            assert(tokens.skip(2) =~= safe.skip(2) + rest);
            lemma_read_safe(forward, more, safe.skip(2), rest);
            assert(reading.step(tokens) == Step::Taken(reading_of(forward, more), 2));
            assert(more + safe.skip(2) =~= arguments + safe);
        } else {
            lemma_read_safe(forward, arguments.push(word), safe.skip(1), rest);
            assert(reading.step(tokens) == Step::Taken(
                reading_of(forward, arguments.push(word)),
                1,
            ));
            assert(arguments.push(word) + safe.skip(1) =~= arguments + safe);
        }
    }
}

/// The forward after some parts.
pub open spec fn forward_after(
    forward: Option<Seq<char>>,
    parts: Seq<Part>,
) -> Option<Seq<char>> {
    if forwards_of(parts).len() > 0 {
        Some(forwards_of(parts)[0])
    } else {
        forward
    }
}

/// Parts with one forward at most are read over, and what they hold is noted.
proof fn lemma_read_parts(
    forward: Option<Seq<char>>,
    arguments: Seq<Seq<char>>,
    parts: Seq<Part>,
    rest: Seq<Seq<char>>,
)
    requires
        all_valid(parts),
        forwards_of(parts).len() <= 1,
        forward is Some ==> forwards_of(parts).len() == 0,
    ensures
        reading_of(forward, arguments).read(words_of(parts) + rest) == reading_of(
            forward_after(forward, parts),
            arguments + kept_of(parts),
        ).read(rest),
    decreases parts.len(),
{
    let reading = reading_of(forward, arguments);
    if parts.len() == 0 {
        assert(words_of(parts) + rest =~= rest);
        assert(arguments + kept_of(parts) =~= arguments);
    } else {
        let part = parts[0];
        let others = parts.skip(1);
        assert(part.is_valid());
        assert forall|i: int| 0 <= i < others.len() implies (#[trigger] others[i]).is_valid() by {
            assert(others[i] == parts[i + 1]);
        }
        let behind = words_of(others) + rest;
        let tokens = words_of(parts) + rest;
        assert(tokens =~= part.words() + behind);
        match part {
            Part::Kept(safe) => {
                lemma_read_safe(forward, arguments, safe, behind);
                lemma_read_parts(forward, arguments + safe, others, rest);
                assert(forwards_of(parts) =~= forwards_of(others));
                assert((arguments + safe) + kept_of(others) =~= arguments + kept_of(parts));
            },
            Part::Dropped(word) => {
                lemma_own_words(word);
                assert(tokens[0] == word);
                assert(tokens.skip(1) =~= behind);
                assert(reading.step(tokens) == Step::Taken(reading, 1));
                lemma_read_parts(forward, arguments, others, rest);
                assert(forwards_of(parts) =~= forwards_of(others));
                assert(kept_of(parts) =~= kept_of(others));
            },
            Part::Forward(value) => {
                lemma_own_words("-L"@);
                assert(tokens[0] == "-L"@);
                assert(tokens[1] == value);
                assert(tokens.skip(2) =~= behind);
                assert(forwards_of(parts)[0] == value);
                assert(forwards_of(others).len() == 0);
                assert(reading.step(tokens) == Step::Taken(
                    reading_of(Some(value), arguments),
                    2,
                ));
                lemma_read_parts(Some(value), arguments, others, rest);
                assert(kept_of(parts) =~= kept_of(others));
            },
            Part::AttachedForward(value) => {
                let word = "-L"@ + value;
                lemma_own_words(word);
                lemma_own_words("-L"@);
                assert(word[0] == "-L"@[0] && word[1] == "-L"@[1]);
                assert(tokens[0] == word);
                assert(tokens.skip(1) =~= behind);
                assert(word.skip(2) =~= value);
                assert(forwards_of(parts)[0] == value);
                assert(forwards_of(others).len() == 0);
                assert(reading.step(tokens) == Step::Taken(
                    reading_of(Some(value), arguments),
                    1,
                ));
                lemma_read_parts(Some(value), arguments, others, rest);
                assert(kept_of(parts) =~= kept_of(others));
            },
        }
    }
}

/// What a command yields whose words begin with an executable and some parts.
proof fn lemma_import_behind_parts(path: Seq<char>, parts: Seq<Part>, rest: Seq<Seq<char>>)
    requires
        file_name(path) == Some("ssh"@),
        all_valid(parts),
        forwards_of(parts).len() <= 1,
    ensures
        import_of_words(seq![path] + words_of(parts) + rest) == match reading_of(
            forward_after(None, parts),
            kept_of(parts),
        ).read(rest) {
            Ok(reading) => import_of_reading(reading),
            Err(error) => Err(error),
        },
{
    let tokens = seq![path] + words_of(parts) + rest;
    assert(tokens[0] == path);
    assert(tokens.skip(1) =~= words_of(parts) + rest);
    assert(Reading::start() == reading_of(None, Seq::empty()));
    lemma_read_parts(None, Seq::empty(), parts, rest);
    assert(Seq::<Seq<char>>::empty() + kept_of(parts) =~= kept_of(parts));
}

/// Reading one host, with or without dashes.
proof fn lemma_read_host(reading: Reading, dashes: bool, host: Seq<char>, rest: Seq<Seq<char>>)
    requires
        reading.ssh_host is None,
        dashes || host.len() == 0 || host[0] != '-',
    ensures
        reading.read(host_words(dashes, host) + rest) == (Reading {
            ssh_host: Some(host),
            ..reading
        }).read(rest),
{
    let tokens = host_words(dashes, host) + rest;
    let next = Reading { ssh_host: Some(host), ..reading };
    lemma_own_words("--"@);
    if dashes {
        assert(tokens[0] == "--"@);
        assert(tokens[1] == host);
        assert(tokens.skip(2) =~= rest);
        assert(reading.step(tokens) == Step::Taken(next, 2));
    } else {
        assert(tokens[0] == host);
        assert(tokens.skip(1) =~= rest);
        lemma_own_words(host);
        lemma_lists(host);
        assert(reading.step(tokens) == Step::Taken(next, 1));
    }
}

/// A valid host does not begin with a dash.
proof fn lemma_host_is_no_option(host: Seq<char>)
    requires
        valid_host_target(host),
    ensures
        host.len() > 0,
        host[0] != '-',
{
    if host.len() > 0 && host[0] == '-' {
        lemma_trim_keeps_first(host);
    }
}

/// What an import of these parts yields, with a forward that reads as a tunnel's.
pub open spec fn import_of_parts(parts: Seq<Part>, host: Seq<char>) -> ImportModel {
    let forward = forward_of(forwards_of(parts)[0])->0;
    ImportModel {
        local_port: forward.local_port,
        destination_host: forward.destination_host,
        destination_port: forward.destination_port,
        ssh_host: host,
        bind_address: forward.bind_address,
        additional_arguments: kept_of(parts),
    }
}

/// A command that names `ssh`, holds one forward that can be read, any safe arguments and any flags
/// that concern the process, in any order, and ends in a valid host, is imported: the host and the
/// forward as they stand, and every safe argument, in order.
pub proof fn law_import_keeps_everything_safe(
    path: Seq<char>,
    parts: Seq<Part>,
    dashes: bool,
    host: Seq<char>,
)
    requires
        file_name(path) == Some("ssh"@),
        all_valid(parts),
        forwards_of(parts).len() == 1,
        forward_of(forwards_of(parts)[0]) is Some,
        valid_host_target(host),
    ensures
        import_of_words(seq![path] + words_of(parts) + host_words(dashes, host)) == Ok::<
            ImportModel,
            ParseErrorModel,
        >(import_of_parts(parts, host)),
{
    lemma_import_behind_parts(path, parts, host_words(dashes, host));
    lemma_host_is_no_option(host);
    let reading = reading_of(forward_after(None, parts), kept_of(parts));
    let empty = Seq::<Seq<char>>::empty();
    assert(host_words(dashes, host) + empty =~= host_words(dashes, host));
    lemma_read_host(reading, dashes, host, empty);
}

/// Nothing safe is lost: whatever safe arguments stand in front of the forward of a command come
/// back from the import as they are.
pub proof fn law_nothing_safe_is_lost(
    path: Seq<char>,
    safe: Seq<Seq<char>>,
    forward: Seq<char>,
    host: Seq<char>,
)
    requires
        file_name(path) == Some("ssh"@),
        arguments_safe(safe),
        forward_of(forward) is Some,
        valid_host_target(host),
    ensures
        import_of_words(seq![path] + safe + seq!["-L"@, forward, host]) matches Ok(imported) && {
            &&& imported.additional_arguments == safe
            &&& imported.ssh_host == host
            &&& imported.local_port == forward_of(forward)->0.local_port
            &&& imported.destination_host == forward_of(forward)->0.destination_host
            &&& imported.destination_port == forward_of(forward)->0.destination_port
            &&& imported.bind_address == forward_of(forward)->0.bind_address
        },
{
    let kept = Part::Kept(safe);
    let asked = Part::Forward(forward);
    let parts = seq![kept, asked];
    let last = seq![asked];
    assert(parts.skip(1) =~= last);
    assert(last.skip(1) =~= Seq::<Part>::empty());
    assert(words_of(Seq::<Part>::empty()) =~= Seq::<Seq<char>>::empty());
    assert(words_of(last) =~= seq!["-L"@, forward]);
    assert(words_of(parts) =~= safe + seq!["-L"@, forward]);
    assert(kept_of(Seq::<Part>::empty()) =~= Seq::<Seq<char>>::empty());
    assert(kept_of(last) =~= Seq::<Seq<char>>::empty());
    assert(kept_of(parts) =~= safe);
    assert(forwards_of(Seq::<Part>::empty()) =~= Seq::<Seq<char>>::empty());
    assert(forwards_of(last) =~= seq![forward]);
    assert(forwards_of(parts) =~= seq![forward]);
    law_import_keeps_everything_safe(path, parts, false, host);
    assert(seq![path] + words_of(parts) + host_words(false, host) =~= seq![path] + safe
        + seq!["-L"@, forward, host]);
}

/// Whether the words of a command are an executable, these parts, and the host at the end, and an
/// import holds what they say.
pub open spec fn is_import_of(
    tokens: Seq<Seq<char>>,
    parts: Seq<Part>,
    dashes: bool,
    imported: ImportModel,
) -> bool {
    &&& tokens.len() > 0
    &&& file_name(tokens[0]) == Some("ssh"@)
    &&& tokens == seq![tokens[0]] + words_of(parts) + host_words(dashes, imported.ssh_host)
    &&& all_valid(parts)
    &&& forwards_of(parts).len() == 1
    &&& forward_of(forwards_of(parts)[0]) is Some
    &&& valid_host_target(imported.ssh_host)
    &&& imported == import_of_parts(parts, imported.ssh_host)
}

/// Nothing but such a command is imported: the words between the executable and the host are the
/// arguments of the import, in order, and besides them only dropped flags, one forward, and the
/// dashes in front of the host.
pub proof fn law_imports_are_made_of_parts(tokens: Seq<Seq<char>>)
    ensures
        import_of_words(tokens) matches Ok(imported) ==> exists|parts: Seq<Part>, dashes: bool|
            #[trigger] is_import_of(tokens, parts, dashes, imported),
{
    if let Ok(imported) = import_of_words(tokens) {
        let behind = tokens.skip(1);
        let end = Reading::start().read(behind)->Ok_0;
        assert(Reading::start() == reading_of(None, Seq::empty()));
        let (parts, dashes) = lemma_parts_of(None, Seq::empty(), behind);
        assert(Seq::<Seq<char>>::empty() + kept_of(parts) =~= kept_of(parts));
        let tail = host_words(dashes, imported.ssh_host);
        assert(end.ssh_host == Some(imported.ssh_host));
        assert(behind == words_of(parts) + tail);
        assert(tokens =~= seq![tokens[0]] + behind);
        assert(seq![tokens[0]] + (words_of(parts) + tail) =~= seq![tokens[0]] + words_of(parts)
            + tail);
        assert(is_import_of(tokens, parts, dashes, imported));
    }
}

/// The part that a step takes which takes no host.
proof fn lemma_first_part(
    forward: Option<Seq<char>>,
    arguments: Seq<Seq<char>>,
    tokens: Seq<Seq<char>>,
) -> (part: Part)
    requires
        tokens.len() > 0,
        reading_of(forward, arguments).step(tokens) matches Step::Taken(next, count)
            && next.ssh_host is None,
    ensures
        part.is_valid(),
        ({
            let next = reading_of(forward, arguments).step(tokens)->Taken_0;
            let count = reading_of(forward, arguments).step(tokens)->Taken_1;
            &&& 0 < count <= tokens.len()
            &&& part.words() == tokens.take(count)
            &&& next == reading_of(next.forward, arguments + part.kept())
            &&& part.forwards().len() <= 1
            &&& part.forwards().len() == 0 ==> next.forward == forward
            &&& part.forwards().len() == 1 ==> forward is None && next.forward == Some(
                part.forwards()[0],
            )
        }),
{
    let word = tokens[0];
    lemma_own_words(word);
    lemma_lists(word);
    let next = reading_of(forward, arguments).step(tokens)->Taken_0;
    let count = reading_of(forward, arguments).step(tokens)->Taken_1;
    if word == "-L"@ {
        assert(seq!["-L"@, tokens[1]] =~= tokens.take(2));
        assert(arguments + Seq::<Seq<char>>::empty() =~= arguments);
        Part::Forward(tokens[1])
    } else if word.len() > 2 && word.take(2) == "-L"@ {
        assert("-L"@ + word.skip(2) =~= word);
        assert(seq![word] =~= tokens.take(1));
        assert(arguments + Seq::<Seq<char>>::empty() =~= arguments);
        Part::AttachedForward(word.skip(2))
    } else if is_dropped_flag(word) {
        assert(seq![word] =~= tokens.take(1));
        assert(arguments + Seq::<Seq<char>>::empty() =~= arguments);
        Part::Dropped(word)
    } else if count == 1 {
        assert(seq![word] =~= tokens.take(1));
        assert(arguments + seq![word] =~= arguments.push(word));
        assert(seq![word].skip(1) =~= Seq::empty());
        assert(arguments_safe(Seq::empty()));
        assert(arguments_safe(seq![word]));
        Part::Kept(seq![word])
    } else {
        let value = tokens[1];
        assert(seq![word, value] =~= tokens.take(2));
        assert(arguments + seq![word, value] =~= arguments.push(word).push(value));
        law_safe_arguments(word, value);
        Part::Kept(seq![word, value])
    }
}

/// The parts of words that can be read.
proof fn lemma_parts_of(
    forward: Option<Seq<char>>,
    arguments: Seq<Seq<char>>,
    tokens: Seq<Seq<char>>,
) -> (made: (Seq<Part>, bool))
    requires
        reading_of(forward, arguments).read(tokens) is Ok,
    ensures
        ({
            let (parts, dashes) = made;
            let end = reading_of(forward, arguments).read(tokens)->Ok_0;
            &&& all_valid(parts)
            &&& tokens == words_of(parts) + (match end.ssh_host {
                Some(host) => host_words(dashes, host),
                None => Seq::empty(),
            })
            &&& end.arguments == arguments + kept_of(parts)
            &&& forwards_of(parts).len() <= 1
            &&& forward is Some ==> forwards_of(parts).len() == 0
            &&& end.forward == forward_after(forward, parts)
        }),
    decreases tokens.len(),
{
    let reading = reading_of(forward, arguments);
    let none = Seq::<Part>::empty();
    assert(words_of(none) =~= Seq::<Seq<char>>::empty());
    assert(kept_of(none) =~= Seq::<Seq<char>>::empty());
    assert(forwards_of(none) =~= Seq::<Seq<char>>::empty());
    assert(arguments + kept_of(none) =~= arguments);
    if tokens.len() == 0 {
        assert(tokens =~= words_of(none) + Seq::<Seq<char>>::empty());
        (none, false)
    } else {
        let step = reading.step(tokens);
        assert(step is Taken);
        let next = step->Taken_0;
        let behind = tokens.skip(step->Taken_1);
        assert(next.read(behind) is Ok);
        if next.ssh_host is Some {
            lemma_host_step(reading, tokens);
            let dashes = tokens[0] == "--"@;
            assert(tokens =~= words_of(none) + host_words(dashes, next.ssh_host->0));
            (none, dashes)
        } else {
            let part = lemma_first_part(forward, arguments, tokens);
            let (others, dashes) = lemma_parts_of(next.forward, next.arguments, behind);
            let parts = seq![part] + others;
            assert(parts.skip(1) =~= others);
            let tail = match next.read(behind)->Ok_0.ssh_host {
                Some(host) => host_words(dashes, host),
                None => Seq::empty(),
            };
            assert forall|i: int| 0 <= i < parts.len() implies (#[trigger] parts[i]).is_valid() by {
                if i > 0 {
                    assert(parts[i] == others[i - 1]);
                }
            }
            assert(tokens =~= part.words() + behind);
            assert(words_of(parts) + tail =~= part.words() + (words_of(others) + tail));
            assert(arguments + kept_of(parts) =~= next.arguments + kept_of(others));
            assert(forwards_of(parts) =~= part.forwards() + forwards_of(others));
            (parts, dashes)
        }
    }
}

/// A step that takes a host leaves nothing behind it to be read.
proof fn lemma_host_step(reading: Reading, tokens: Seq<Seq<char>>)
    requires
        tokens.len() > 0,
        reading.ssh_host is None,
        reading.read(tokens) is Ok,
        reading.step(tokens)->Taken_0.ssh_host is Some,
    ensures
        ({
            let next = reading.step(tokens)->Taken_0;
            &&& tokens == host_words(tokens[0] == "--"@, next.ssh_host->0)
            &&& reading.read(tokens) == Ok::<Reading, ParseErrorModel>(next)
            &&& next == (Reading { ssh_host: next.ssh_host, ..reading })
        }),
{
    assert(reading.step(tokens) is Taken);
    let next = reading.step(tokens)->Taken_0;
    let behind = tokens.skip(reading.step(tokens)->Taken_1);
    assert(reading.read(tokens) == next.read(behind));
    if behind.len() > 0 {
        assert(next.step(behind) == Step::Refused(ParseErrorModel::RemoteCommand));
    }
    assert(next.read(behind) == Ok::<Reading, ParseErrorModel>(next));
    assert(tokens =~= host_words(tokens[0] == "--"@, next.ssh_host->0));
}

/// Whether a word begins with a dash and means nothing to the import: no flag or option on its
/// lists, none with a value attached, and neither a forward nor the dashes in front of a host.
pub open spec fn is_unknown_option(word: Seq<char>) -> bool {
    &&& word.len() > 0 && word[0] == '-'
    &&& word != "--"@ && word != "-L"@ && !is_dropped_flag(word) && !is_lone_flag(word)
    &&& !is_free_option(word) && word != "-o"@
    &&& word.len() > 2 ==> !is_free_option(word.take(2)) && word.take(2) != "-o"@ && word.take(2)
        != "-L"@
}

/// How a command is refused at the first word that cannot be read, whatever follows it: a second
/// forward, an option that is not safe, an option that is not known, and a word behind the host.
pub proof fn law_import_refuses_words(
    path: Seq<char>,
    parts: Seq<Part>,
    word: Seq<char>,
    value: Seq<char>,
    rest: Seq<Seq<char>>,
)
    requires
        file_name(path) == Some("ssh"@),
        all_valid(parts),
        forwards_of(parts).len() <= 1,
    ensures
        forwards_of(parts).len() == 1 ==> import_of_words(
            seq![path] + words_of(parts) + (seq!["-L"@, value] + rest),
        ) == refusal(ParseErrorModel::UnsupportedOption("Multiple -L forwards"@)),
        forwards_of(parts).len() == 1 && value.len() > 0 ==> import_of_words(
            seq![path] + words_of(parts) + (seq!["-L"@ + value] + rest),
        ) == refusal(ParseErrorModel::UnsupportedOption("Multiple -L forwards"@)),
        !safe_openssh_option(value) ==> import_of_words(
            seq![path] + words_of(parts) + (seq!["-o"@, value] + rest),
        ) == refusal(ParseErrorModel::UnsafeOption("-o "@ + value)),
        !safe_openssh_option(value) && value.len() > 0 ==> import_of_words(
            seq![path] + words_of(parts) + (seq!["-o"@ + value] + rest),
        ) == refusal(ParseErrorModel::UnsafeOption("-o"@ + value)),
        is_unknown_option(word) ==> import_of_words(
            seq![path] + words_of(parts) + (seq![word] + rest),
        ) == refusal(ParseErrorModel::UnsupportedOption(word)),
{
    let reading = reading_of(forward_after(None, parts), kept_of(parts));
    lemma_own_words("-L"@);
    lemma_lists("-o"@);
    lemma_own_words("-o"@);
    let second = seq!["-L"@, value] + rest;
    lemma_import_behind_parts(path, parts, second);
    assert(second[0] == "-L"@ && second[1] == value);
    let joined = "-L"@ + value;
    let attached = seq![joined] + rest;
    lemma_import_behind_parts(path, parts, attached);
    assert(attached[0] == joined);
    if value.len() > 0 {
        lemma_own_words(joined);
        assert(joined[0] == "-L"@[0] && joined[1] == "-L"@[1]);
    }
    let unsafe_option = seq!["-o"@, value] + rest;
    lemma_import_behind_parts(path, parts, unsafe_option);
    assert(unsafe_option[0] == "-o"@ && unsafe_option[1] == value);
    let set = "-o"@ + value;
    let unsafe_attached = seq![set] + rest;
    lemma_import_behind_parts(path, parts, unsafe_attached);
    assert(unsafe_attached[0] == set);
    if value.len() > 0 {
        lemma_own_words(set);
        lemma_lists(set);
        assert(set[0] == "-o"@[0] && set[1] == "-o"@[1]);
        assert(set.take(2) =~= "-o"@);
        assert(set.skip(2) =~= value);
        lemma_second_of_o();
    }
    let unknown = seq![word] + rest;
    lemma_import_behind_parts(path, parts, unknown);
    assert(unknown[0] == word);
    if is_unknown_option(word) {
        lemma_own_words(word);
        lemma_lists(word);
        if word.len() > 2 {
            lemma_lists(word.take(2));
        }
    }
}

proof fn lemma_second_of_o()
    ensures
        "-o"@.len() == 2,
        "-o"@[1] == 'o',
{
    reveal_strlit("-o");
}

/// A refusal of a command.
pub open spec fn refusal(error: ParseErrorModel) -> Result<ImportModel, ParseErrorModel> {
    Err(error)
}

/// How a command is refused that ends too early: in an option without its value, in dashes without
/// a host, or without a host at all, and then for want of a forward first.
pub proof fn law_import_refuses_what_ends_early(
    path: Seq<char>,
    parts: Seq<Part>,
    option: Seq<char>,
)
    requires
        file_name(path) == Some("ssh"@),
        all_valid(parts),
        forwards_of(parts).len() <= 1,
    ensures
        import_of_words(seq![path] + words_of(parts) + seq!["-L"@]) == refusal(
            ParseErrorModel::MissingOptionValue("-L"@),
        ),
        is_free_option(option) || option == "-o"@ ==> import_of_words(
            seq![path] + words_of(parts) + seq![option],
        ) == refusal(ParseErrorModel::MissingOptionValue(option)),
        import_of_words(seq![path] + words_of(parts) + seq!["--"@]) == refusal(
            ParseErrorModel::MissingHost,
        ),
        import_of_words(seq![path] + words_of(parts)) == refusal(
            if forwards_of(parts).len() == 0 {
                ParseErrorModel::MissingForward
            } else {
                ParseErrorModel::MissingHost
            },
        ),
{
    let reading = reading_of(forward_after(None, parts), kept_of(parts));
    lemma_own_words("-L"@);
    lemma_own_words("--"@);
    let forward = seq!["-L"@];
    lemma_import_behind_parts(path, parts, forward);
    assert(forward[0] == "-L"@);
    let lone = seq![option];
    lemma_import_behind_parts(path, parts, lone);
    assert(lone[0] == option);
    lemma_own_words(option);
    lemma_lists(option);
    let dashes = seq!["--"@];
    lemma_import_behind_parts(path, parts, dashes);
    assert(dashes[0] == "--"@);
    let empty = Seq::<Seq<char>>::empty();
    lemma_import_behind_parts(path, parts, empty);
    assert(seq![path] + words_of(parts) + empty =~= seq![path] + words_of(parts));
    assert(reading.read(empty) == Ok::<Reading, ParseErrorModel>(reading));
}

/// How a command with a host is refused: for any word behind the host; for want of a forward; for a
/// host that is not valid; and for a forward that cannot be read, in this order.
pub proof fn law_import_refuses_behind_the_host(
    path: Seq<char>,
    parts: Seq<Part>,
    dashes: bool,
    host: Seq<char>,
    word: Seq<char>,
    rest: Seq<Seq<char>>,
)
    requires
        file_name(path) == Some("ssh"@),
        all_valid(parts),
        forwards_of(parts).len() <= 1,
        dashes || host.len() == 0 || host[0] != '-',
    ensures
        import_of_words(
            seq![path] + words_of(parts) + (host_words(dashes, host) + (seq![word] + rest)),
        ) == refusal(ParseErrorModel::RemoteCommand),
        forwards_of(parts).len() == 0 ==> import_of_words(
            seq![path] + words_of(parts) + host_words(dashes, host),
        ) == refusal(ParseErrorModel::MissingForward),
        forwards_of(parts).len() == 1 && !valid_host_target(host) ==> import_of_words(
            seq![path] + words_of(parts) + host_words(dashes, host),
        ) == refusal(ParseErrorModel::MissingHost),
        forwards_of(parts).len() == 1 && valid_host_target(host) && forward_of(
            forwards_of(parts)[0],
        ) is None ==> import_of_words(
            seq![path] + words_of(parts) + host_words(dashes, host),
        ) == refusal(ParseErrorModel::InvalidForward),
{
    let reading = reading_of(forward_after(None, parts), kept_of(parts));
    let more = seq![word] + rest;
    lemma_import_behind_parts(path, parts, host_words(dashes, host) + more);
    lemma_read_host(reading, dashes, host, more);
    let empty = Seq::<Seq<char>>::empty();
    lemma_import_behind_parts(path, parts, host_words(dashes, host));
    lemma_read_host(reading, dashes, host, empty);
    assert(host_words(dashes, host) + empty =~= host_words(dashes, host));
}

/// A command without words is empty, and one whose first word does not name `ssh` is none of ours,
/// whatever else it holds.
pub proof fn law_import_needs_ssh(path: Seq<char>, rest: Seq<Seq<char>>)
    ensures
        import_of_words(Seq::empty()) == refusal(ParseErrorModel::Empty),
        file_name(path) != Some("ssh"@) ==> import_of_words(seq![path] + rest) == refusal(
            ParseErrorModel::NotSsh,
        ),
{
    assert((seq![path] + rest)[0] == path);
}

/// An import goes by the words of the command alone; a command that has no words, for want of a
/// closing quote, is refused for that; and every list of words without single quotes can be handed
/// to the import, each word in single quotes.
pub proof fn law_import_goes_by_the_words(
    command: Seq<char>,
    other: Seq<char>,
    list: Seq<Seq<char>>,
)
    requires
        forall|i: int| 0 <= i < list.len() ==> !(#[trigger] list[i]).contains('\''),
    ensures
        words(command) == words(other) ==> import_of(command) == import_of(other),
        words(command) is Err ==> import_of(command) == refusal(words(command)->Err_0),
        import_of(spaced(list.map_values(|word: Seq<char>| quoted(word)))) == import_of_words(
            list,
        ),
{
    law_quoted_words(list);
}

/// The name of a file is what stands behind the last slash of its path. A slash at the end, and a
/// dot behind it, do not matter; two dots have no name.
pub proof fn law_file_name(directory: Seq<char>, name: Seq<char>)
    requires
        name.len() > 0,
        !name.contains('/'),
        name != "."@,
        name != ".."@,
    ensures
        file_name(name) == Some(name),
        file_name(directory + seq!['/'] + name) == Some(name),
        file_name(directory + seq!['/']) == file_name(directory),
        file_name(directory + seq!['/', '.']) == file_name(directory),
        file_name(directory + seq!['/', '.', '.']) is None,
        file_name("."@) is None,
        file_name(".."@) is None,
        file_name(Seq::empty()) is None,
{
    reveal_strlit(".");
    reveal_strlit("..");
    lemma_last_index(name, '/');
    if let Some(k) = last_index(name, '/') {
        assert(name.contains(name[k]));
    }
    let k = directory.len() as int;
    let full = directory + seq!['/'] + name;
    assert forall|j: int| k < j < full.len() implies #[trigger] full[j] != '/' by {
        assert(full[j] == name[j - k - 1]);
        assert(name.contains(full[j]));
    }
    lemma_last_index_is(full, '/', k);
    assert(full.skip(k + 1) =~= name);
    let bare = directory + seq!['/'];
    lemma_last_index_is(bare, '/', k);
    assert(bare.skip(k + 1).len() == 0);
    assert(bare.take(k) =~= directory);
    let dot = directory + seq!['/', '.'];
    lemma_last_index_is(dot, '/', k);
    assert(dot.skip(k + 1) =~= "."@);
    assert(dot.take(k) =~= directory);
    let dots = directory + seq!['/', '.', '.'];
    lemma_last_index_is(dots, '/', k);
    assert(dots.skip(k + 1) =~= ".."@);
    lemma_last_index("."@, '/');
    lemma_last_index(".."@, '/');
    lemma_last_index(Seq::<char>::empty(), '/');
}

/// An error about an option begins with the option, and says the same of every option.
pub proof fn law_errors_name_the_option(option: Seq<char>)
    ensures
        ParseErrorModel::MissingOptionValue(option).message() == option
            + ParseErrorModel::MissingOptionValue(Seq::empty()).message(),
        ParseErrorModel::UnsupportedOption(option).message() == option
            + ParseErrorModel::UnsupportedOption(Seq::empty()).message(),
        ParseErrorModel::UnsafeOption(option).message() == option + ParseErrorModel::UnsafeOption(
            Seq::empty(),
        ).message(),
{
    let empty = Seq::<char>::empty();
    assert(ParseErrorModel::MissingOptionValue(option).message() =~= option
        + ParseErrorModel::MissingOptionValue(empty).message());
    assert(ParseErrorModel::UnsupportedOption(option).message() =~= option
        + ParseErrorModel::UnsupportedOption(empty).message());
    assert(ParseErrorModel::UnsafeOption(option).message() =~= option
        + ParseErrorModel::UnsafeOption(empty).message());
}

} // verus!
