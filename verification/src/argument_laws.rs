//! Which arguments a tunnel may carry: every flag and option on the lists, with any value, in any
//! order, and nothing else.

use vstd::prelude::*;

use crate::model::{
    allowed_flags, allowed_openssh_options, arguments_safe, attached_option_prefixes,
    ends_option_key, lemma_option_key, options_with_values, safe_openssh_option,
};
use crate::text::{is_white_space, lemma_trim_start_of, lower, trim, trim_end_of};
use crate::text_laws::is_blank;

verus! {

/// Safe arguments stay safe, and unsafe ones unsafe, behind safe ones.
pub proof fn law_arguments_compose(a: Seq<Seq<char>>, b: Seq<Seq<char>>)
    requires
        arguments_safe(a),
    ensures
        arguments_safe(a + b) == arguments_safe(b),
    decreases a.len(),
{
    if a.len() == 0 {
        assert(a + b =~= b);
    } else {
        assert((a + b)[0] == a[0]);
        assert((a + b).skip(1) =~= a.skip(1) + b);
        if allowed_flags().contains(a[0]) || !options_with_values().contains(a[0]) {
            law_arguments_compose(a.skip(1), b);
        } else {
            assert((a + b)[1] == a[1]);
            assert((a + b).skip(2) =~= a.skip(2) + b);
            law_arguments_compose(a.skip(2), b);
        }
    }
}

/// Whether an option takes a value that is free: a jump host, an identity, a login name, a port.
pub open spec fn is_free_option(option: Seq<char>) -> bool {
    option == "-J"@ || option == "-i"@ || option == "-l"@ || option == "-p"@
}

/// Whether a word is one of the flags that stand alone.
pub open spec fn is_lone_flag(word: Seq<char>) -> bool {
    ||| word == "-4"@
    ||| word == "-6"@
    ||| word == "-a"@
    ||| word == "-C"@
    ||| word == "-k"@
    ||| word == "-q"@
    ||| word == "-v"@
    ||| word == "-vv"@
    ||| word == "-vvv"@
}

/// The lists hold these words and no others.
pub proof fn lemma_lists(word: Seq<char>)
    ensures
        allowed_flags().contains(word) <==> is_lone_flag(word),
        options_with_values().contains(word) <==> is_free_option(word) || word == "-o"@,
        attached_option_prefixes().contains(word) <==> is_free_option(word) || word == "-o"@,
        is_lone_flag(word) ==> !is_free_option(word) && word != "-o"@,
        is_lone_flag(word) && word.len() > 2 ==> word[1] == 'v',
        is_free_option(word) || word == "-o"@ ==> word.len() == 2 && word[0] == '-' && word[1]
            != 'L' && word[1] != 'N' && word[1] != 'T' && word[1] != 'n' && word[1] != 'f' && word[1]
            != '-',
        is_lone_flag(word) ==> word.len() >= 2 && word[0] == '-' && word[1] != 'L' && word[1] != 'N'
            && word[1] != 'T' && word[1] != 'n' && word[1] != 'f' && word[1] != '-',
        is_free_option(word) ==> word != "-o"@,
{
    reveal_strlit("-4");
    reveal_strlit("-6");
    reveal_strlit("-a");
    reveal_strlit("-C");
    reveal_strlit("-k");
    reveal_strlit("-q");
    reveal_strlit("-v");
    reveal_strlit("-vv");
    reveal_strlit("-vvv");
    reveal_strlit("-J");
    reveal_strlit("-i");
    reveal_strlit("-l");
    reveal_strlit("-o");
    reveal_strlit("-p");
    let flags = allowed_flags();
    assert(flags[0] == "-4"@ && flags[1] == "-6"@ && flags[2] == "-a"@ && flags[3] == "-C"@);
    assert(flags[4] == "-k"@ && flags[5] == "-q"@ && flags[6] == "-v"@ && flags[7] == "-vv"@);
    assert(flags[8] == "-vvv"@);
    let options = options_with_values();
    assert(options[0] == "-J"@ && options[1] == "-i"@ && options[2] == "-l"@);
    assert(options[3] == "-o"@ && options[4] == "-p"@);
    let attached = attached_option_prefixes();
    assert(attached[0] == "-J"@ && attached[1] == "-i"@ && attached[2] == "-l"@);
    assert(attached[3] == "-o"@ && attached[4] == "-p"@);
    assert("-4"@[1] == '4' && "-6"@[1] == '6' && "-a"@[1] == 'a' && "-C"@[1] == 'C');
    assert("-k"@[1] == 'k' && "-q"@[1] == 'q' && "-v"@[1] == 'v' && "-vv"@[1] == 'v');
    assert("-vvv"@[1] == 'v');
    assert("-J"@[1] == 'J' && "-i"@[1] == 'i' && "-l"@[1] == 'l' && "-o"@[1] == 'o');
    assert("-p"@[1] == 'p');
}

/// Each kind of safe argument, with every value. Flags stand alone. A jump host, an identity, a
/// login name and a port may be any text, in the next word or attached; `-o` must set a safe
/// option. An option without its value is not safe.
pub proof fn law_safe_arguments(word: Seq<char>, value: Seq<char>)
    ensures
        arguments_safe(Seq::empty()),
        is_lone_flag(word) ==> arguments_safe(seq![word]),
        is_free_option(word) ==> arguments_safe(seq![word, value]),
        is_free_option(word) && value.len() > 0 ==> arguments_safe(seq![word + value]),
        arguments_safe(seq!["-o"@, value]) <==> safe_openssh_option(value),
        value.len() > 0 ==> (arguments_safe(seq!["-o"@ + value]) <==> safe_openssh_option(value)),
        is_free_option(word) || word == "-o"@ ==> !arguments_safe(seq![word]),
{
    lemma_lists(word);
    lemma_lists("-o"@);
    assert(seq![word].skip(1) =~= Seq::empty());
    assert(seq![word, value].skip(2) =~= Seq::empty());
    assert(seq!["-o"@, value].skip(2) =~= Seq::empty());
    assert(arguments_safe(Seq::empty()));
    let joined = word + value;
    let set = "-o"@ + value;
    assert(seq![joined].skip(1) =~= Seq::empty());
    assert(seq![set].skip(1) =~= Seq::empty());
    lemma_lists(joined);
    lemma_lists(set);
    if is_free_option(word) && value.len() > 0 {
        assert(joined.take(2) =~= word);
        assert(joined[1] == word[1]);
        lemma_not_v(word);
        assert(seq![joined][0] == joined);
    }
    if value.len() > 0 {
        assert(set.take(2) =~= "-o"@);
        assert(set.skip(2) =~= value);
        assert(set[1] == "-o"@[1]);
        lemma_not_v("-o"@);
        assert(seq![set][0] == set);
    }
}

proof fn lemma_not_v(word: Seq<char>)
    requires
        is_free_option(word) || word == "-o"@,
    ensures
        word[1] != 'v',
{
    reveal_strlit("-J");
    reveal_strlit("-i");
    reveal_strlit("-l");
    reveal_strlit("-o");
    reveal_strlit("-p");
}

/// Whatever is safe begins with a flag that stands alone, an option with its value behind it, or an
/// option with its value attached, and what follows is safe in its turn: nothing else gets in.
pub proof fn law_nothing_else_is_safe(arguments: Seq<Seq<char>>)
    requires
        arguments_safe(arguments),
        arguments.len() > 0,
    ensures
        ({
            let word = arguments[0];
            if is_lone_flag(word) {
                arguments_safe(arguments.skip(1))
            } else if is_free_option(word) || word == "-o"@ {
                &&& arguments.len() >= 2
                &&& word == "-o"@ ==> safe_openssh_option(arguments[1])
                &&& arguments_safe(arguments.skip(2))
            } else {
                &&& word.len() > 2
                &&& is_free_option(word.take(2)) || word.take(2) == "-o"@
                &&& word.take(2) == "-o"@ ==> safe_openssh_option(word.skip(2))
                &&& arguments_safe(arguments.skip(1))
            }
        }),
        arguments[0].len() >= 2,
        arguments[0][0] == '-',
{
    lemma_lists(arguments[0]);
    if arguments[0].len() > 2 {
        lemma_lists(arguments[0].take(2));
        assert(arguments[0].take(2)[0] == arguments[0][0]);
    }
}

/// Whether a text can be the name of an option: not empty, without white space and without `=`.
pub open spec fn is_option_name(key: Seq<char>) -> bool {
    key.len() > 0 && forall|i: int|
        0 <= i < key.len() ==> !is_white_space(#[trigger] key[i]) && key[i] != '='
}

/// Trimming at the end stops at the name of an option.
proof fn lemma_trim_end_keeps_name(key: Seq<char>, tail: Seq<char>)
    requires
        is_option_name(key),
    ensures
        ({
            let rest = trim_end_of(key + tail, |c: char| is_white_space(c));
            &&& rest.len() >= key.len()
            &&& rest.len() <= key.len() + tail.len()
            &&& rest == (key + tail).take(rest.len() as int)
        }),
    decreases tail.len(),
{
    let p = |c: char| is_white_space(c);
    let s = key + tail;
    if tail.len() == 0 {
        assert(s =~= key);
        assert(s.last() == key[key.len() - 1]);
        assert(s.take(s.len() as int) =~= s);
    } else if p(s.last()) {
        assert(s.drop_last() =~= key + tail.drop_last());
        lemma_trim_end_keeps_name(key, tail.drop_last());
        let rest = trim_end_of(s, p);
        assert((key + tail.drop_last()).take(rest.len() as int) =~= s.take(rest.len() as int));
    } else {
        assert(s.take(s.len() as int) =~= s);
    }
}

/// Whether a `-o` is safe rests on the name of the option alone, in any case: white space in front,
/// and whatever stands behind the name and what separates it, do not matter.
pub proof fn law_options_go_by_their_name(a: Seq<char>, key: Seq<char>, tail: Seq<char>)
    requires
        is_blank(a),
        is_option_name(key),
        tail.len() > 0 ==> ends_option_key(tail[0]),
    ensures
        safe_openssh_option(a + key + tail) <==> allowed_openssh_options().contains(lower(key)),
{
    let p = |c: char| is_white_space(c);
    let s = a + key + tail;
    let bare = key + tail;
    assert forall|j: int| 0 <= j < a.len() implies p(#[trigger] s[j]) by {
        assert(s[j] == a[j]);
    }
    assert(s[a.len() as int] == key[0]);
    lemma_trim_start_of(s, p, a.len() as int);
    assert(s.skip(a.len() as int) =~= bare);
    lemma_trim_end_keeps_name(key, tail);
    let t = trim(s);
    assert(t == trim_end_of(bare, p));
    let k = key.len() as int;
    assert forall|j: int| 0 <= j < k implies !ends_option_key(#[trigger] t[j]) by {
        assert(t[j] == key[j]);
        assert(!is_white_space(key[j]));
    }
    if k < t.len() {
        assert(t[k] == tail[0]);
    }
    lemma_option_key(t, k);
    assert(t.take(k) =~= key);
    assert(lower(key).len() == key.len());
}

/// Whether an option, by its name in lower case, makes `ssh` run a command or read, write or obey
/// a file or socket of the caller's choice.
pub open spec fn is_dangerous(name: Seq<char>) -> bool {
    ||| name == "proxycommand"@
    ||| name == "localcommand"@
    ||| name == "permitlocalcommand"@
    ||| name == "remotecommand"@
    ||| name == "knownhostscommand"@
    ||| name == "identityfile"@
    ||| name == "include"@
    ||| name == "userknownhostsfile"@
    ||| name == "controlpath"@
    ||| name == "pkcs11provider"@
}

/// No option that runs a command or chooses a file is safe, however it is spelled and whatever its
/// value.
pub proof fn law_dangerous_options_are_blocked(a: Seq<char>, key: Seq<char>, tail: Seq<char>)
    requires
        is_blank(a),
        is_option_name(key),
        tail.len() > 0 ==> ends_option_key(tail[0]),
        is_dangerous(lower(key)),
    ensures
        !safe_openssh_option(a + key + tail),
{
    law_options_go_by_their_name(a, key, tail);
    lemma_dangerous(lower(key));
}

proof fn lemma_dangerous(name: Seq<char>)
    requires
        is_dangerous(name),
    ensures
        !allowed_openssh_options().contains(name),
{
    reveal_strlit("proxycommand");
    reveal_strlit("localcommand");
    reveal_strlit("permitlocalcommand");
    reveal_strlit("remotecommand");
    reveal_strlit("knownhostscommand");
    reveal_strlit("identityfile");
    reveal_strlit("include");
    reveal_strlit("userknownhostsfile");
    reveal_strlit("controlpath");
    reveal_strlit("pkcs11provider");
    reveal_strlit("addressfamily");
    reveal_strlit("batchmode");
    reveal_strlit("compression");
    reveal_strlit("connectionattempts");
    reveal_strlit("connecttimeout");
    reveal_strlit("hostkeyalgorithms");
    reveal_strlit("identitiesonly");
    reveal_strlit("ipqos");
    reveal_strlit("kexalgorithms");
    reveal_strlit("loglevel");
    reveal_strlit("macs");
    reveal_strlit("passwordauthentication");
    reveal_strlit("port");
    reveal_strlit("preferredauthentications");
    reveal_strlit("proxyjump");
    reveal_strlit("pubkeyauthentication");
    reveal_strlit("serveralivecountmax");
    reveal_strlit("serveraliveinterval");
    reveal_strlit("stricthostkeychecking");
    reveal_strlit("tcpkeepalive");
    reveal_strlit("user");
    reveal_strlit("verifyhostkeydns");
    let names = allowed_openssh_options();
    assert forall|i: int| 0 <= i < names.len() implies #[trigger] names[i] != name by {
        assert(names[i].len() != name.len() || names[i][0] != name[0] || names[i][2] != name[2]);
    }
}

} // verus!
