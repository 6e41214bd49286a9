//! How the value of `-L` is read: every way to write one, and that nothing else is one.

use vstd::prelude::*;

use crate::parser::{forward_of, port_of, split_destination, ForwardModel};
use crate::text::{
    is_digit, last_index, lemma_last_index, lemma_last_index_is, parse_number, rsplit_once,
    unsigned_digits,
};
use crate::text_laws::law_split_at_the_last;

verus! {

/// What stands in front of the destination: the local port, behind the bind address if there is
/// one.
pub open spec fn local_side(address: Option<Seq<char>>, port: Seq<char>) -> Seq<char> {
    match address {
        Some(address) => address + seq![':'] + port,
        None => port,
    }
}

/// A host as it stands in a forward, in brackets or not.
pub open spec fn written_host(brackets: bool, host: Seq<char>) -> Seq<char> {
    if brackets {
        seq!['['] + host + seq![']']
    } else {
        host
    }
}

/// A forward, written down.
pub open spec fn written_forward(
    address: Option<Seq<char>>,
    local_port: Seq<char>,
    brackets: bool,
    host: Seq<char>,
    destination_port: Seq<char>,
) -> Seq<char> {
    local_side(address, local_port) + seq![':'] + written_host(brackets, host) + seq![':']
        + destination_port
}

/// Whether the parts of a forward can be told apart again: a host without brackets must hold no
/// colon and not end in a bracket, one in brackets must hold no opening bracket.
pub open spec fn can_be_read(address: Option<Seq<char>>, brackets: bool, host: Seq<char>) -> bool {
    &&& address matches Some(address) ==> address.len() > 0
    &&& host.len() > 0
    &&& if brackets {
        !host.contains('[')
    } else {
        !host.contains(':') && host.last() != ']'
    }
}

/// A port holds no colon.
proof fn lemma_ports_hold_no_colon(port: Seq<char>)
    requires
        port_of(port) is Some,
    ensures
        !port.contains(':'),
{
    if port.contains(':') {
        let k = choose|k: int| 0 <= k < port.len() && port[k] == ':';
        let digits = unsigned_digits(port);
        if port[0] == '+' {
            assert(digits[k - 1] == ':');
            assert(is_digit(digits[k - 1]));
        } else {
            assert(is_digit(digits[k]));
        }
    }
}

/// Every forward that is written with two ports and a host, with or without a bind address, is read
/// as what it says.
pub proof fn law_forwards_are_read(
    address: Option<Seq<char>>,
    local_port: Seq<char>,
    brackets: bool,
    host: Seq<char>,
    destination_port: Seq<char>,
)
    requires
        port_of(local_port) is Some,
        port_of(destination_port) is Some,
        can_be_read(address, brackets, host),
    ensures
        forward_of(written_forward(address, local_port, brackets, host, destination_port)) == Some(
            ForwardModel {
                local_port: port_of(local_port)->0,
                destination_host: host,
                destination_port: port_of(destination_port)->0,
                bind_address: address,
            },
        ),
{
    lemma_ports_hold_no_colon(local_port);
    lemma_ports_hold_no_colon(destination_port);
    let local = local_side(address, local_port);
    let front = local + seq![':'] + written_host(brackets, host);
    law_split_at_the_last(front, ':', destination_port);
    lemma_destination_is_split(local, brackets, host);
    match address {
        Some(address) => {
            law_split_at_the_last(address, ':', local_port);
        },
        None => {
            law_split_at_the_last(Seq::empty(), ':', local_port);
        },
    }
}

/// The host is told apart from what stands in front of it.
proof fn lemma_destination_is_split(local: Seq<char>, brackets: bool, host: Seq<char>)
    requires
        can_be_read(None, brackets, host),
    ensures
        split_destination(local + seq![':'] + written_host(brackets, host)) == Some((local, host)),
{
    let s = local + seq![':'] + written_host(brackets, host);
    if brackets {
        let k = local.len() as int + 1;
        assert(s.last() == ']');
        assert(s[k] == '[');
        assert forall|j: int| k < j < s.len() implies #[trigger] s[j] != '[' by {
            if j < s.len() - 1 {
                assert(s[j] == host[j - k - 1]);
                assert(host.contains(s[j]));
            }
        }
        lemma_last_index_is(s, '[', k);
        assert(s.take(k - 1) =~= local);
        assert(s.subrange(k + 1, s.len() - 1) =~= host);
    } else {
        assert(s.last() == host.last());
        law_split_at_the_last(local, ':', host);
    }
}

/// Nothing else is a forward: what is read as one is written with these very ports, host and bind
/// address.
pub proof fn law_forwards_are_written_so(s: Seq<char>)
    ensures
        forward_of(s) matches Some(forward) ==> exists|
            local_port: Seq<char>,
            brackets: bool,
            destination_port: Seq<char>,
        |
            #![trigger written_forward(forward.bind_address, local_port, brackets,
                forward.destination_host, destination_port)]
            {
                &&& s == written_forward(
                    forward.bind_address,
                    local_port,
                    brackets,
                    forward.destination_host,
                    destination_port,
                )
                &&& port_of(local_port) == Some(forward.local_port)
                &&& port_of(destination_port) == Some(forward.destination_port)
                &&& can_be_read(forward.bind_address, brackets, forward.destination_host)
            },
{
    if let Some(forward) = forward_of(s) {
        let (front, destination_port) = rsplit_once(s, ':')->0;
        let (local, host) = split_destination(front)->0;
        lemma_split_rejoins(s, ':');
        lemma_last_index(front, '[');
        lemma_last_index(front, ':');
        let brackets = front.last() == ']';
        if brackets {
            let k = last_index(front, '[')->0;
            assert(front =~= local + seq![':'] + (seq!['['] + host + seq![']']));
            if host.contains('[') {
                let i = choose|i: int| 0 <= i < host.len() && host[i] == '[';
                assert(front[k + 1 + i] == '[');
            }
        } else {
            lemma_split_rejoins(front, ':');
            assert(host.last() == front.last());
        }
        assert(front == local + seq![':'] + written_host(brackets, host));
        let local_port = match rsplit_once(local, ':') {
            Some((address, port)) => port,
            None => local,
        };
        lemma_split_rejoins(local, ':');
        assert(local == local_side(forward.bind_address, local_port));
        assert(s == written_forward(
            forward.bind_address,
            local_port,
            brackets,
            forward.destination_host,
            destination_port,
        ));
    }
}

/// The parts of a split make up the whole, and the second holds nothing to split at.
proof fn lemma_split_rejoins(s: Seq<char>, c: char)
    ensures
        rsplit_once(s, c) matches Some((front, back)) ==> s == front + seq![c] + back
            && !back.contains(c),
{
    lemma_last_index(s, c);
    if let Some(k) = last_index(s, c) {
        let back = s.skip(k + 1);
        assert(s =~= s.take(k) + seq![c] + back);
        if back.contains(c) {
            let i = choose|i: int| 0 <= i < back.len() && back[i] == c;
            assert(s[k + 1 + i] == c);
        }
    }
}

/// A port is a number that is not zero.
pub proof fn law_ports(s: Seq<char>)
    ensures
        port_of(s) == parse_number(s) || (parse_number(s) == Some(0u16) && port_of(s) is None),
        port_of(s) matches Some(port) ==> port > 0,
        parse_number(s) matches Some(number) ==> (port_of(s) is Some <==> number > 0),
{
}

} // verus!
