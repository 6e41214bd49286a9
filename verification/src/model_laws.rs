//! What holds of every tunnel: where its command forwards to, where its URL leads, what it is
//! called, and which arguments it may carry.

use vstd::prelude::*;

use crate::import_laws::{forward_reads_back, law_forward_round_trip};
use crate::model::{arguments_safe, valid_destination_host, valid_host_target, TunnelModel};
use crate::parser::{forward_of, ForwardModel};
use crate::text::{
    decimal, is_bracket, is_control_code, is_digit, is_white_space, lemma_decimal, lower,
    lower_char,
};
use crate::text_laws::{
    is_all_brackets, is_blank, law_brackets_are_taken_off, law_decimal, law_lower,
    law_trim_takes_off_what_surrounds,
};

verus! {

/// Whether a text ends in another.
pub open spec fn ends_in(s: Seq<char>, end: Seq<char>) -> bool {
    s.len() >= end.len() && s.skip(s.len() - end.len()) == end
}

/// Whether a text begins with another.
pub open spec fn begins_with(s: Seq<char>, start: Seq<char>) -> bool {
    s.len() >= start.len() && s.take(start.len() as int) == start
}

/// The tunnel with another bind address.
pub open spec fn bound_to(tunnel: TunnelModel, address: Option<Seq<char>>) -> TunnelModel {
    TunnelModel { bind_address: address, ..tunnel }
}

/// The tunnel with another destination.
pub open spec fn leading_to(tunnel: TunnelModel, host: Seq<char>) -> TunnelModel {
    TunnelModel { destination_host: host, ..tunnel }
}

/// The tunnel with another name.
pub open spec fn named(tunnel: TunnelModel, name: Seq<char>) -> TunnelModel {
    TunnelModel { name, ..tunnel }
}

/// Whether a command sets an OpenSSH option by `-o`.
pub open spec fn sets_option(arguments: Seq<Seq<char>>, option: Seq<char>) -> bool {
    exists|i: int|
        #![trigger arguments[i]]
        0 <= i < arguments.len() - 1 && arguments[i] == "-o"@ && arguments[i + 1] == option
}

/// The command of a tunnel forwards what the tunnel says. In front of the arguments that the tunnel
/// adds stands one `-L`, and the word behind it reads as the tunnel's own ports, destination and
/// bind address exactly where a forward reads back. The added arguments follow as they are, and the
/// host comes last. The command runs nothing on the host, asks no questions, and ends when the
/// forward fails.
pub proof fn law_command_forwards_the_tunnel(tunnel: TunnelModel)
    ensures
        ({
            let arguments = tunnel.ssh_arguments();
            let own = arguments.len() - tunnel.additional_arguments.len() - 1;
            &&& own == 14
            &&& arguments[12] == "-L"@
            &&& forall|i: int| 0 <= i < own && i != 12 ==> #[trigger] arguments[i] != "-L"@
            &&& forward_reads_back(tunnel) <==> forward_of(arguments[13]) == Some(
                ForwardModel {
                    local_port: tunnel.local_port,
                    destination_host: tunnel.destination_host,
                    destination_port: tunnel.destination_port,
                    bind_address: tunnel.bind_address,
                },
            )
            &&& arguments[13] == tunnel.forward_spec()
            &&& arguments.subrange(own, arguments.len() - 1) == tunnel.additional_arguments
            &&& arguments.last() == tunnel.ssh_host
            &&& arguments.contains("-N"@)
            &&& arguments.contains("-T"@)
            &&& sets_option(arguments, "BatchMode=yes"@)
            &&& sets_option(arguments, "ConnectTimeout=10"@)
            &&& sets_option(arguments, "ExitOnForwardFailure=yes"@)
            &&& sets_option(arguments, "ServerAliveInterval=30"@)
            &&& sets_option(arguments, "ServerAliveCountMax=3"@)
        }),
{
    let arguments = tunnel.ssh_arguments();
    reveal_strlit("-N");
    reveal_strlit("-T");
    reveal_strlit("-o");
    reveal_strlit("-L");
    reveal_strlit("BatchMode=yes");
    reveal_strlit("ConnectTimeout=10");
    reveal_strlit("ExitOnForwardFailure=yes");
    reveal_strlit("ServerAliveInterval=30");
    reveal_strlit("ServerAliveCountMax=3");
    lemma_decimal(tunnel.destination_port as nat);
    let port = decimal(tunnel.destination_port as nat);
    assert(is_digit(port[port.len() - 1]));
    assert(tunnel.forward_spec().last() == port.last());
    assert("-L"@.last() == 'L');
    assert("-N"@[1] != "-L"@[1]);
    assert("-T"@[1] != "-L"@[1]);
    assert("-o"@[1] != "-L"@[1]);
    assert(arguments[13] == tunnel.forward_spec());
    law_forward_round_trip(tunnel);
    assert(arguments.subrange(14, arguments.len() - 1) =~= tunnel.additional_arguments);
    assert(arguments[0] == "-N"@);
    assert(arguments[1] == "-T"@);
    assert(arguments[2] == "-o"@ && arguments[3] == "BatchMode=yes"@);
    assert(arguments[4] == "-o"@ && arguments[5] == "ConnectTimeout=10"@);
    assert(arguments[6] == "-o"@ && arguments[7] == "ExitOnForwardFailure=yes"@);
    assert(arguments[8] == "-o"@ && arguments[9] == "ServerAliveInterval=30"@);
    assert(arguments[10] == "-o"@ && arguments[11] == "ServerAliveCountMax=3"@);
}

/// A bind address stands in front of what is forwarded without one, with a colon between; a
/// destination that is in brackets already is forwarded as the one between them; the local port
/// comes first and the destination's last. Neither the name, the id, the host nor the added
/// arguments matter.
pub proof fn law_forward_parts(tunnel: TunnelModel, address: Seq<char>, other: TunnelModel)
    ensures
        bound_to(tunnel, Some(address)).forward_spec() == address + seq![':'] + bound_to(
            tunnel,
            None,
        ).forward_spec(),
        begins_with(
            bound_to(tunnel, None).forward_spec(),
            decimal(tunnel.local_port as nat) + seq![':'],
        ),
        ends_in(tunnel.forward_spec(), seq![':'] + decimal(tunnel.destination_port as nat)),
        tunnel.destination_host.contains(':') && !tunnel.destination_host.contains('[')
            ==> leading_to(
            tunnel,
            seq!['['] + tunnel.destination_host + seq![']'],
        ).forward_spec() == tunnel.forward_spec(),
        other.local_port == tunnel.local_port && other.destination_port == tunnel.destination_port
            && other.destination_host == tunnel.destination_host && other.bind_address
            == tunnel.bind_address ==> other.forward_spec() == tunnel.forward_spec(),
{
    let bound = bound_to(tunnel, Some(address));
    let free = bound_to(tunnel, None);
    assert(bound.forward_spec() =~= address + seq![':'] + free.forward_spec());
    let local = decimal(tunnel.local_port as nat) + seq![':'];
    assert(free.forward_spec().take(local.len() as int) =~= local);
    let end = seq![':'] + decimal(tunnel.destination_port as nat);
    let spec = tunnel.forward_spec();
    assert(spec.skip(spec.len() - end.len()) =~= end);
    let host = tunnel.destination_host;
    if host.contains(':') && !host.contains('[') {
        let wrapped = seq!['['] + host + seq![']'];
        let k = choose|k: int| 0 <= k < host.len() && host[k] == ':';
        assert(wrapped[k + 1] == ':');
        assert(host.contains(host[0]));
    }
}

/// Whether an address stands for every interface, for a browser.
pub open spec fn is_any_address(address: Seq<char>) -> bool {
    address == "*"@ || address == "0.0.0.0"@ || address == "::"@ || address.len() == 0
}

/// The URL of a tunnel leads to its local port: it is an `http` URL that ends in the port, and
/// neither the destination nor the host matters.
pub proof fn law_url_leads_to_the_tunnel(tunnel: TunnelModel, other: TunnelModel)
    ensures
        begins_with(tunnel.browser_url(), "http://"@),
        ends_in(
            tunnel.browser_url(),
            seq![':'] + decimal(tunnel.local_port as nat) + seq!['/'],
        ),
        other.local_port == tunnel.local_port && other.bind_address == tunnel.bind_address
            ==> other.browser_url() == tunnel.browser_url(),
        other.browser_url() == tunnel.browser_url() ==> other.local_port == tunnel.local_port,
{
    lemma_url_ends(tunnel);
    lemma_url_ends(other);
    if other.browser_url() == tunnel.browser_url() {
        lemma_ports_apart(tunnel, other);
    }
}

proof fn lemma_url_ends(tunnel: TunnelModel)
    ensures
        begins_with(tunnel.browser_url(), "http://"@),
        ends_in(
            tunnel.browser_url(),
            seq![':'] + decimal(tunnel.local_port as nat) + seq!['/'],
        ),
{
    reveal_strlit("http://");
    reveal_strlit("http://[");
    reveal_strlit("]:");
    reveal_strlit(":");
    reveal_strlit("/");
    let url = tunnel.browser_url();
    let end = seq![':'] + decimal(tunnel.local_port as nat) + seq!['/'];
    assert(url.take(7) =~= "http://"@);
    assert(url.skip(url.len() - end.len()) =~= end);
}

/// Different ports give different ends.
proof fn lemma_ports_apart(a: TunnelModel, b: TunnelModel)
    requires
        a.browser_url() == b.browser_url(),
        ends_in(a.browser_url(), seq![':'] + decimal(a.local_port as nat) + seq!['/']),
        ends_in(b.browser_url(), seq![':'] + decimal(b.local_port as nat) + seq!['/']),
    ensures
        a.local_port == b.local_port,
{
    let url = a.browser_url();
    let x = decimal(a.local_port as nat);
    let y = decimal(b.local_port as nat);
    law_decimal(a.local_port as nat, b.local_port as nat);
    law_decimal(b.local_port as nat, a.local_port as nat);
    let ex = seq![':'] + x + seq!['/'];
    let ey = seq![':'] + y + seq!['/'];
    let n = url.len() as int;
    if x.len() < y.len() {
        assert(url.skip(n - ex.len())[0] == ':');
        assert(url[n - ex.len()] == ':');
        assert(url.skip(n - ey.len())[ey.len() - ex.len()] == url[n - ex.len()]);
        assert(ey[ey.len() - ex.len()] == y[ey.len() - ex.len() - 1]);
        assert(is_digit(y[ey.len() - ex.len() - 1]));
    } else if y.len() < x.len() {
        assert(url.skip(n - ey.len())[0] == ':');
        assert(url[n - ey.len()] == ':');
        assert(url.skip(n - ex.len())[ex.len() - ey.len()] == url[n - ey.len()]);
        assert(ex[ex.len() - ey.len()] == x[ex.len() - ey.len() - 1]);
        assert(is_digit(x[ex.len() - ey.len() - 1]));
    } else {
        assert(ex == ey);
        assert(ex.subrange(1, ex.len() - 1) =~= x);
        assert(ey.subrange(1, ey.len() - 1) =~= y);
    }
}

/// The host of the URL is the bind address, in brackets where it holds a colon. White space around
/// the address does not matter, nor do brackets around it. Without an address, and with one that
/// stands for every interface, the host is `localhost`.
pub proof fn law_url_host(tunnel: TunnelModel, address: Seq<char>, a: Seq<char>, b: Seq<char>)
    requires
        address.len() > 0 ==> !is_white_space(address[0]) && !is_white_space(address.last()),
        address.len() > 0 ==> address[0] != '[' || address.last() != ']',
        is_blank(a),
        is_blank(b),
    ensures
        bound_to(tunnel, None).browser_url() == "http://localhost:"@ + decimal(
            tunnel.local_port as nat,
        ) + "/"@,
        is_any_address(address) ==> bound_to(tunnel, Some(address)).browser_url() == bound_to(
            tunnel,
            None,
        ).browser_url(),
        !is_any_address(address) && !address.contains(':') ==> bound_to(
            tunnel,
            Some(address),
        ).browser_url() == "http://"@ + address + ":"@ + decimal(tunnel.local_port as nat) + "/"@,
        !is_any_address(address) && address.contains(':') ==> bound_to(
            tunnel,
            Some(address),
        ).browser_url() == "http://["@ + address + "]:"@ + decimal(tunnel.local_port as nat)
            + "/"@,
        bound_to(tunnel, Some(a + address + b)).browser_url() == bound_to(
            tunnel,
            Some(address),
        ).browser_url(),
        bound_to(tunnel, Some(seq!['['] + address + seq![']'])).browser_url() == bound_to(
            tunnel,
            Some(address),
        ).browser_url(),
{
    reveal_strlit("http://localhost:");
    reveal_strlit("http://");
    reveal_strlit("localhost");
    reveal_strlit(":");
    reveal_strlit("*");
    reveal_strlit("0.0.0.0");
    reveal_strlit("::");
    let port = decimal(tunnel.local_port as nat);
    let none = bound_to(tunnel, None);
    assert(none.browser_host() == "localhost"@);
    assert(!"localhost"@.contains(':'));
    assert("http://"@ + "localhost"@ + ":"@ + port + "/"@ =~= "http://localhost:"@ + port + "/"@);
    let plain = bound_to(tunnel, Some(address));
    let empty = Seq::<char>::empty();
    assert(empty + address + empty =~= address);
    law_trim_takes_off_what_surrounds(empty, address, empty);
    law_trim_takes_off_what_surrounds(a, address, b);
    let wrapped = seq!['['] + address + seq![']'];
    assert(empty + wrapped + empty =~= wrapped);
    law_trim_takes_off_what_surrounds(empty, wrapped, empty);
    assert(wrapped.subrange(1, wrapped.len() - 1) =~= address);
    lemma_lower_names(address);
    if address.len() >= 2 && address[0] == '[' {
        assert(address.last() != ']');
    }
}

/// None of the names for every interface holds a letter, so case does not matter for them.
proof fn lemma_lower_names(s: Seq<char>)
    ensures
        lower(s) == "*"@ <==> s == "*"@,
        lower(s) == "0.0.0.0"@ <==> s == "0.0.0.0"@,
        lower(s) == "::"@ <==> s == "::"@,
{
    reveal_strlit("*");
    reveal_strlit("0.0.0.0");
    reveal_strlit("::");
    law_lower(s, s);
    lemma_lower_fixed(s, "*"@);
    lemma_lower_fixed(s, "0.0.0.0"@);
    lemma_lower_fixed(s, "::"@);
}

/// A text without letters is the lower case of itself alone.
proof fn lemma_lower_fixed(s: Seq<char>, name: Seq<char>)
    requires
        forall|i: int| 0 <= i < name.len() ==> (#[trigger] name[i] as u32) < 65,
    ensures
        lower(s) == name <==> s == name,
{
    law_lower(s, s);
    law_lower(name, name);
    assert(lower(name) =~= name) by {
        assert forall|i: int| 0 <= i < name.len() implies lower(name)[i] == name[i] by {
            assert(name[i] as u32 == lower(name)[i] as u32);
        }
    }
    if lower(s) == name {
        assert forall|i: int| 0 <= i < s.len() implies s[i] == name[i] by {
            assert(lower(s)[i] == name[i]);
        }
        assert(s =~= name);
    }
}

/// A tunnel is called by its name without the white space around it, and by its destination where
/// that leaves nothing.
pub proof fn law_display_name(tunnel: TunnelModel, name: Seq<char>, a: Seq<char>, b: Seq<char>)
    requires
        name.len() > 0 ==> !is_white_space(name[0]) && !is_white_space(name.last()),
        is_blank(a),
        is_blank(b),
    ensures
        name.len() > 0 ==> named(tunnel, a + name + b).display_name() == name,
        name.len() == 0 ==> named(tunnel, a + name + b).display_name()
            == tunnel.destination_endpoint(),
        tunnel.display_name().len() > 0,
{
    law_trim_takes_off_what_surrounds(a, name, b);
}

/// The endpoints of a tunnel end in their ports; in front stands the destination's host, and the
/// bind address, or `localhost` where there is none.
pub proof fn law_endpoints(tunnel: TunnelModel)
    ensures
        ends_in(tunnel.local_endpoint(), seq![':'] + decimal(tunnel.local_port as nat)),
        ends_in(tunnel.destination_endpoint(), seq![':'] + decimal(tunnel.destination_port as nat)),
        begins_with(tunnel.destination_endpoint(), tunnel.destination_host),
        tunnel.destination_endpoint().len() == tunnel.destination_host.len() + 1 + decimal(
            tunnel.destination_port as nat,
        ).len(),
        ({
            let host = if tunnel.bind_address is Some && tunnel.bind_address->0.len() > 0 {
                tunnel.bind_address->0
            } else {
                "localhost"@
            };
            &&& begins_with(tunnel.local_endpoint(), host)
            &&& tunnel.local_endpoint().len() == host.len() + 1 + decimal(
                tunnel.local_port as nat,
            ).len()
        }),
{
    let local = tunnel.local_endpoint();
    let there = tunnel.destination_endpoint();
    let x = seq![':'] + decimal(tunnel.local_port as nat);
    let y = seq![':'] + decimal(tunnel.destination_port as nat);
    assert(local.skip(local.len() - x.len()) =~= x);
    assert(there.skip(there.len() - y.len()) =~= y);
    assert(there.take(tunnel.destination_host.len() as int) =~= tunnel.destination_host);
    let host = if tunnel.bind_address is Some && tunnel.bind_address->0.len() > 0 {
        tunnel.bind_address->0
    } else {
        "localhost"@
    };
    assert(local.take(host.len() as int) =~= host);
}

/// A tunnel without an address is not exposed. Of an address, neither case nor brackets around it
/// matter; between them, three names are those of the loopback, and every other is exposed.
pub proof fn law_exposure(tunnel: TunnelModel, address: Seq<char>, a: Seq<char>, b: Seq<char>)
    requires
        address.len() > 0 ==> !is_bracket(address[0]) && !is_bracket(address.last()),
        is_all_brackets(a),
        is_all_brackets(b),
    ensures
        !bound_to(tunnel, None).exposes_beyond_loopback(),
        bound_to(tunnel, Some(a + address + b)).exposes_beyond_loopback() <==> lower(address)
            != "localhost"@ && lower(address) != "127.0.0.1"@ && lower(address) != "::1"@,
        bound_to(tunnel, Some(address)).exposes_beyond_loopback() == bound_to(
            tunnel,
            Some(lower(address)),
        ).exposes_beyond_loopback(),
{
    law_brackets_are_taken_off(a, address, b);
    let empty = Seq::<char>::empty();
    assert(empty + address + empty =~= address);
    assert(empty + lower(address) + empty =~= lower(address));
    law_lower(address, address);
    law_brackets_are_taken_off(empty, address, empty);
    if address.len() > 0 {
        assert(lower(address)[0] == lower_char(address[0]));
        assert(lower(address)[address.len() - 1] == lower_char(
            address[address.len() - 1],
        ));
    }
    law_brackets_are_taken_off(empty, lower(address), empty);
}

/// A host without white space around it is valid exactly if it is not empty and holds neither white
/// space nor control characters; one that `ssh` connects to must not begin with a dash either.
pub proof fn law_valid_hosts(host: Seq<char>)
    requires
        host.len() > 0 ==> !is_white_space(host[0]) && !is_white_space(host.last()),
    ensures
        valid_destination_host(host) <==> host.len() > 0 && forall|i: int|
            0 <= i < host.len() ==> !is_white_space(#[trigger] host[i]) && !is_control_code(
                host[i],
            ),
        valid_host_target(host) <==> valid_destination_host(host) && host[0] != '-',
{
    let empty = Seq::<char>::empty();
    assert(empty + host + empty =~= host);
    law_trim_takes_off_what_surrounds(empty, host, empty);
}

/// A tunnel may run exactly if its hosts are valid and its added arguments safe; its name, its
/// ports and its bind address do not matter.
pub proof fn law_what_may_run(tunnel: TunnelModel, other: TunnelModel)
    ensures
        tunnel.is_safe_to_run() <==> valid_host_target(tunnel.ssh_host) && valid_destination_host(
            tunnel.destination_host,
        ) && arguments_safe(tunnel.additional_arguments),
        other.ssh_host == tunnel.ssh_host && other.destination_host == tunnel.destination_host
            && other.additional_arguments == tunnel.additional_arguments ==> other.is_safe_to_run()
            == tunnel.is_safe_to_run(),
{
}

} // verus!
