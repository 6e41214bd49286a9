//! A tunnel, the phases that it goes through, and the rules on what may stand in an SSH command.

use vstd::prelude::*;
use vstd::string::*;

use crate::text::{
    chars_of, copied_texts, decimal, has_char, is_control_code, is_one_of, is_white_space,
    law_trim_is_idempotent, lemma_trim_keeps_first, lower, lowered, push_decimal, push_texts,
    same_text, str_texts, text_between, texts, trim, trim_brackets, trimmed, without_brackets,
};

verus! {

/// The flags without a value that a tunnel may carry.
pub open spec fn allowed_flags() -> Seq<Seq<char>> {
    seq!["-4"@, "-6"@, "-a"@, "-C"@, "-k"@, "-q"@, "-v"@, "-vv"@, "-vvv"@]
}

/// The options that a tunnel may carry with their value in the next argument.
pub open spec fn options_with_values() -> Seq<Seq<char>> {
    seq!["-J"@, "-i"@, "-l"@, "-o"@, "-p"@]
}

/// The options that a tunnel may carry with their value attached.
pub open spec fn attached_option_prefixes() -> Seq<Seq<char>> {
    seq!["-J"@, "-i"@, "-l"@, "-o"@, "-p"@]
}

/// The OpenSSH options, in lower case, that `-o` may set: none of them runs a command or reads a
/// file of the caller's choice.
pub open spec fn allowed_openssh_options() -> Seq<Seq<char>> {
    seq![
        "addressfamily"@,
        "batchmode"@,
        "compression"@,
        "connectionattempts"@,
        "connecttimeout"@,
        "hostkeyalgorithms"@,
        "identitiesonly"@,
        "ipqos"@,
        "kexalgorithms"@,
        "loglevel"@,
        "macs"@,
        "passwordauthentication"@,
        "port"@,
        "preferredauthentications"@,
        "proxyjump"@,
        "pubkeyauthentication"@,
        "serveralivecountmax"@,
        "serveraliveinterval"@,
        "stricthostkeychecking"@,
        "tcpkeepalive"@,
        "user"@,
        "verifyhostkeydns"@,
    ]
}

/// Whether `argument` is one of the flags without a value that a tunnel may carry.
pub fn is_allowed_flag(argument: &str) -> (allowed: bool)
    ensures
        allowed == allowed_flags().contains(argument@),
{
    let names: [&str; 9] = ["-4", "-6", "-a", "-C", "-k", "-q", "-v", "-vv", "-vvv"];
    assert(str_texts(names@) =~= allowed_flags());
    is_one_of(argument, &names)
}

/// Whether `argument` is one of the options that take their value from the next argument.
pub fn is_option_with_value(argument: &str) -> (allowed: bool)
    ensures
        allowed == options_with_values().contains(argument@),
{
    let names: [&str; 5] = ["-J", "-i", "-l", "-o", "-p"];
    assert(str_texts(names@) =~= options_with_values());
    is_one_of(argument, &names)
}

/// Whether `s` is not empty and holds neither white space nor control characters.
pub open spec fn is_one_word(s: Seq<char>) -> bool {
    &&& s.len() > 0
    &&& forall|i: int|
        0 <= i < s.len() ==> !is_white_space(#[trigger] s[i]) && !is_control_code(s[i])
}

/// Whether `s`, trimmed, is one word that does not begin with a dash.
pub open spec fn valid_host_target(s: Seq<char>) -> bool {
    is_one_word(trim(s)) && trim(s)[0] != '-'
}

/// Whether `s`, trimmed, is one word.
pub open spec fn valid_destination_host(s: Seq<char>) -> bool {
    is_one_word(trim(s))
}

/// Whether a value of `-o` ends its key at `c`.
pub open spec fn ends_option_key(c: char) -> bool {
    c == '=' || c == ' ' || c == '\t' || c == '\r' || c == '\n'
}

/// The part of `s` in front of the first character that ends an option's key.
pub open spec fn option_key(s: Seq<char>) -> Seq<char>
    decreases s.len(),
{
    if s.len() == 0 || ends_option_key(s[0]) {
        Seq::empty()
    } else {
        seq![s[0]] + option_key(s.drop_first())
    }
}

/// Whether the value of a `-o` sets one of the allowed OpenSSH options.
pub open spec fn safe_openssh_option(value: Seq<char>) -> bool {
    let key = lower(option_key(trim(value)));
    key.len() > 0 && allowed_openssh_options().contains(key)
}

/// Whether `argument` is an option with its value attached, and not an unsafe one.
pub open spec fn attached_option_safe(argument: Seq<char>) -> bool {
    &&& argument.len() > 2
    &&& attached_option_prefixes().contains(argument.take(2))
    &&& argument.take(2) == "-o"@ ==> safe_openssh_option(argument.skip(2))
}

/// Whether a list of arguments is made of allowed flags, allowed options with their value behind
/// them, and allowed options with their value attached, each `-o` a safe one.
pub open spec fn arguments_safe(arguments: Seq<Seq<char>>) -> bool
    decreases arguments.len(),
{
    if arguments.len() == 0 {
        true
    } else if allowed_flags().contains(arguments[0]) {
        arguments_safe(arguments.skip(1))
    } else if options_with_values().contains(arguments[0]) {
        &&& arguments.len() >= 2
        &&& arguments[0] == "-o"@ ==> safe_openssh_option(arguments[1])
        &&& arguments_safe(arguments.skip(2))
    } else {
        attached_option_safe(arguments[0]) && arguments_safe(arguments.skip(1))
    }
}

fn one_word(chars: &Vec<char>) -> (word: bool)
    ensures
        word == is_one_word(chars@),
{
    let mut i: usize = 0;
    while i < chars.len()
        invariant
            i <= chars@.len(),
            forall|j: int|
                0 <= j < i ==> !is_white_space(#[trigger] chars@[j]) && !is_control_code(chars@[j]),
        decreases chars@.len() - i,
    {
        if chars[i].is_whitespace() || chars[i].is_control() {
            return false;
        }
        i += 1;
    }
    chars.len() > 0
}

/// Whether `value` can be handed to `ssh` as the host to connect to.
pub fn is_valid_host_target(value: &str) -> (valid: bool)
    ensures
        valid == valid_host_target(value@),
{
    let chars = chars_of(trimmed(value).as_str());
    one_word(&chars) && chars[0] != '-'
}

/// Whether `value` can be the host that a forward leads to.
pub fn is_valid_destination_host(value: &str) -> (valid: bool)
    ensures
        valid == valid_destination_host(value@),
{
    let chars = chars_of(trimmed(value).as_str());
    one_word(&chars)
}

/// The key of an option ends where its first ending character stands.
pub proof fn lemma_option_key(s: Seq<char>, k: int)
    requires
        0 <= k <= s.len(),
        forall|j: int| 0 <= j < k ==> !ends_option_key(#[trigger] s[j]),
        k < s.len() ==> ends_option_key(s[k]),
    ensures
        option_key(s) == s.take(k),
    decreases k,
{
    if k == 0 {
        assert(s.take(0) =~= Seq::empty());
    } else {
        assert forall|j: int| 0 <= j < k - 1 implies !ends_option_key(
            #[trigger] s.drop_first()[j],
        ) by {
            assert(s.drop_first()[j] == s[j + 1]);
        }
        lemma_option_key(s.drop_first(), k - 1);
        assert(!ends_option_key(s[0]));
        assert(seq![s[0]] + s.drop_first().take(k - 1) =~= s.take(k));
    }
}

/// Whether the value of a `-o` sets an OpenSSH option that is on the list of safe ones.
pub fn is_safe_openssh_option(value: &str) -> (safe: bool)
    ensures
        safe == safe_openssh_option(value@),
{
    let chars = chars_of(trimmed(value).as_str());
    let mut end: usize = 0;
    while end < chars.len() && !(chars[end] == '=' || chars[end] == ' ' || chars[end] == '\t'
        || chars[end] == '\r' || chars[end] == '\n')
        invariant
            end <= chars@.len(),
            forall|j: int| 0 <= j < end ==> !ends_option_key(#[trigger] chars@[j]),
        decreases chars@.len() - end,
    {
        end += 1;
    }
    proof {
        lemma_option_key(chars@, end as int);
    }
    let key = lowered(text_between(&chars, 0, end).as_str());
    let names: [&str; 22] = [
        "addressfamily",
        "batchmode",
        "compression",
        "connectionattempts",
        "connecttimeout",
        "hostkeyalgorithms",
        "identitiesonly",
        "ipqos",
        "kexalgorithms",
        "loglevel",
        "macs",
        "passwordauthentication",
        "port",
        "preferredauthentications",
        "proxyjump",
        "pubkeyauthentication",
        "serveralivecountmax",
        "serveraliveinterval",
        "stricthostkeychecking",
        "tcpkeepalive",
        "user",
        "verifyhostkeydns",
    ];
    assert(str_texts(names@) =~= allowed_openssh_options());
    !key.as_str().is_empty() && is_one_of(key.as_str(), &names)
}

/// Whether `argument` is an option with its value attached, and not an unsafe one.
pub fn is_attached_option_safe(argument: &str) -> (safe: bool)
    ensures
        safe == attached_option_safe(argument@),
{
    match attached_option(argument) {
        Some((prefix, value)) => !same_text(prefix.as_str(), "-o") || is_safe_openssh_option(
            value.as_str(),
        ),
        None => false,
    }
}

/// The option and the value of an argument that holds both, if its option may be attached.
pub fn attached_option(argument: &str) -> (parts: Option<(String, String)>)
    ensures
        match parts {
            Some((prefix, value)) => {
                &&& argument@.len() > 2
                &&& attached_option_prefixes().contains(argument@.take(2))
                &&& prefix@ == argument@.take(2)
                &&& value@ == argument@.skip(2)
            },
            None => argument@.len() <= 2 || !attached_option_prefixes().contains(
                argument@.take(2),
            ),
        },
{
    let chars = chars_of(argument);
    if chars.len() <= 2 {
        return None;
    }
    let prefix = text_between(&chars, 0, 2);
    assert(prefix@ =~= argument@.take(2));
    let names: [&str; 5] = ["-J", "-i", "-l", "-o", "-p"];
    assert(str_texts(names@) =~= attached_option_prefixes());
    if is_one_of(prefix.as_str(), &names) {
        let value = text_between(&chars, 2, chars.len());
        assert(value@ =~= argument@.skip(2));
        Some((prefix, value))
    } else {
        None
    }
}

/// Whether the arguments that a tunnel adds to its command are all on the lists of safe ones.
pub fn are_additional_arguments_safe(arguments: &[String]) -> (safe: bool)
    ensures
        safe == arguments_safe(texts(arguments@)),
{
    let ghost all = texts(arguments@);
    let mut index: usize = 0;
    assert(all.skip(0) =~= all);
    while index < arguments.len()
        invariant
            index <= arguments@.len(),
            all == texts(arguments@),
            arguments_safe(all) == arguments_safe(all.skip(index as int)),
        decreases arguments@.len() - index,
    {
        let ghost rest = all.skip(index as int);
        let argument = arguments[index].as_str();
        assert(rest[0] == argument@);
        if is_allowed_flag(argument) {
            assert(rest.skip(1) =~= all.skip(index + 1));
            index += 1;
        } else if is_option_with_value(argument) {
            if index + 1 >= arguments.len() {
                return false;
            }
            let value = arguments[index + 1].as_str();
            assert(rest[1] == value@);
            if same_text(argument, "-o") && !is_safe_openssh_option(value) {
                return false;
            }
            assert(rest.skip(2) =~= all.skip(index + 2));
            index += 2;
        } else {
            if !is_attached_option_safe(argument) {
                return false;
            }
            assert(rest.skip(1) =~= all.skip(index + 1));
            index += 1;
        }
    }
    true
}

/// What a tunnel holds.
#[verifier::ext_equal]
pub struct TunnelModel {
    pub id: u128,
    pub name: Seq<char>,
    pub local_port: u16,
    pub destination_host: Seq<char>,
    pub destination_port: u16,
    pub ssh_host: Seq<char>,
    pub bind_address: Option<Seq<char>>,
    pub additional_arguments: Seq<Seq<char>>,
}

/// The characters of a string that may be missing.
pub open spec fn optional_text(text: Option<String>) -> Option<Seq<char>> {
    match text {
        Some(t) => Some(t@),
        None => None,
    }
}

impl TunnelModel {
    /// The name, trimmed, or the destination where the name is blank.
    pub open spec fn display_name(self) -> Seq<char> {
        if trim(self.name).len() == 0 {
            self.destination_endpoint()
        } else {
            trim(self.name)
        }
    }

    /// The destination as it stands in a forward: in brackets where it holds a colon and has none.
    pub open spec fn forward_destination(self) -> Seq<char> {
        let host = self.destination_host;
        if host.contains(':') && host[0] != '[' {
            seq!['['] + host + seq![']']
        } else {
            host
        }
    }

    /// The listening side of a forward.
    pub open spec fn forward_local(self) -> Seq<char> {
        match self.bind_address {
            Some(address) => address + seq![':'] + decimal(self.local_port as nat),
            None => decimal(self.local_port as nat),
        }
    }

    /// The value of `-L`.
    pub open spec fn forward_spec(self) -> Seq<char> {
        self.forward_local() + seq![':'] + self.forward_destination() + seq![':'] + decimal(
            self.destination_port as nat,
        )
    }

    /// Where the tunnel listens: `localhost` unless an address is given.
    pub open spec fn local_endpoint(self) -> Seq<char> {
        let host = match self.bind_address {
            Some(address) => if address.len() == 0 {
                "localhost"@
            } else {
                address
            },
            None => "localhost"@,
        };
        host + seq![':'] + decimal(self.local_port as nat)
    }

    pub open spec fn destination_endpoint(self) -> Seq<char> {
        self.destination_host + seq![':'] + decimal(self.destination_port as nat)
    }

    /// The host that a browser connects to: the bind address, trimmed and without the brackets
    /// around it, or `localhost` where that is empty or stands for every interface.
    pub open spec fn browser_host(self) -> Seq<char> {
        let host = match self.bind_address {
            Some(address) => trim(address),
            None => Seq::empty(),
        };
        let host = if host.len() >= 2 && host[0] == '[' && host.last() == ']' {
            host.subrange(1, host.len() - 1)
        } else {
            host
        };
        if host.len() == 0 || lower(host) == "*"@ || lower(host) == "0.0.0.0"@ || lower(host)
            == "::"@ {
            "localhost"@
        } else {
            host
        }
    }

    /// The URL of the tunnel's local end.
    pub open spec fn browser_url(self) -> Seq<char> {
        let host = self.browser_host();
        let port = decimal(self.local_port as nat);
        if host.contains(':') {
            "http://["@ + host + "]:"@ + port + "/"@
        } else {
            "http://"@ + host + ":"@ + port + "/"@
        }
    }

    /// Whether the tunnel has an address that is not one of the loopback names.
    pub open spec fn exposes_beyond_loopback(self) -> bool {
        match self.bind_address {
            Some(address) => listens_beyond_loopback(address),
            None => false,
        }
    }

    /// Whether the hosts and the added arguments may stand in an SSH command.
    pub open spec fn is_safe_to_run(self) -> bool {
        &&& valid_host_target(self.ssh_host)
        &&& valid_destination_host(self.destination_host)
        &&& arguments_safe(self.additional_arguments)
    }

    /// The arguments that `ssh` is started with.
    pub open spec fn ssh_arguments(self) -> Seq<Seq<char>> {
        seq![
            "-N"@,
            "-T"@,
            "-o"@,
            "BatchMode=yes"@,
            "-o"@,
            "ConnectTimeout=10"@,
            "-o"@,
            "ExitOnForwardFailure=yes"@,
            "-o"@,
            "ServerAliveInterval=30"@,
            "-o"@,
            "ServerAliveCountMax=3"@,
            "-L"@,
            self.forward_spec(),
        ] + self.additional_arguments + seq![self.ssh_host]
    }
}

/// Whether an address, without brackets, is none of the loopback names.
pub open spec fn listens_beyond_loopback(address: Seq<char>) -> bool {
    let host = lower(trim_brackets(address));
    host != "localhost"@ && host != "127.0.0.1"@ && host != "::1"@
}

/// Whether an address, without brackets, is none of the loopback names.
pub fn is_beyond_loopback(address: &str) -> (beyond: bool)
    ensures
        beyond == listens_beyond_loopback(address@),
{
    let host = lowered(without_brackets(address).as_str());
    let host = host.as_str();
    !(same_text(host, "localhost") || same_text(host, "127.0.0.1") || same_text(host, "::1"))
}

/// Whether `id` has the bits of a random (version 4) UUID.
pub open spec fn is_random_uuid(id: u128) -> bool {
    id & 0xf000_c000_0000_0000_0000u128 == 0x4000_8000_0000_0000_0000u128
}

/// A fresh id, the 128 bits of a `uuid::Uuid::new_v4`. Its version is 4 and its variant the one of
/// RFC 9562; the other 122 bits are random, and nothing is claimed of them. A system that has no
/// random bits to give makes `new_v4` panic.
#[verifier::external_body]
fn random_id() -> (id: u128)
    ensures
        is_random_uuid(id),
{
    uuid::Uuid::new_v4().as_u128()
}

/// A saved SSH tunnel: a local port that `ssh` forwards to a destination behind a host.
#[derive(Debug, PartialEq)]
pub struct Tunnel {
    pub id: u128,
    pub name: String,
    pub local_port: u16,
    pub destination_host: String,
    pub destination_port: u16,
    pub ssh_host: String,
    pub bind_address: Option<String>,
    pub additional_arguments: Vec<String>,
}

impl View for Tunnel {
    type V = TunnelModel;

    open spec fn view(&self) -> TunnelModel {
        TunnelModel {
            id: self.id,
            name: self.name@,
            local_port: self.local_port,
            destination_host: self.destination_host@,
            destination_port: self.destination_port,
            ssh_host: self.ssh_host@,
            bind_address: optional_text(self.bind_address),
            additional_arguments: texts(self.additional_arguments@),
        }
    }
}

impl Clone for Tunnel {
    fn clone(&self) -> (copy: Self)
        ensures
            copy@ == self@,
    {
        Tunnel {
            id: self.id,
            name: self.name.clone(),
            local_port: self.local_port,
            destination_host: self.destination_host.clone(),
            destination_port: self.destination_port,
            ssh_host: self.ssh_host.clone(),
            bind_address: match &self.bind_address {
                Some(address) => Some(address.clone()),
                None => None,
            },
            additional_arguments: copied_texts(self.additional_arguments.as_slice()),
        }
    }
}

impl Tunnel {
    /// A tunnel with a fresh id, without a bind address and without added arguments.
    pub fn new(
        name: String,
        local_port: u16,
        destination_host: String,
        destination_port: u16,
        ssh_host: String,
    ) -> (tunnel: Self)
        ensures
            is_random_uuid(tunnel.id),
            tunnel@ == (TunnelModel {
                id: tunnel.id,
                name: name@,
                local_port,
                destination_host: destination_host@,
                destination_port,
                ssh_host: ssh_host@,
                bind_address: None,
                additional_arguments: Seq::empty(),
            }),
    {
        let id = random_id();
        let tunnel = Tunnel {
            id,
            name,
            local_port,
            destination_host,
            destination_port,
            ssh_host,
            bind_address: None,
            additional_arguments: Vec::new(),
        };
        assert(tunnel@.additional_arguments =~= Seq::empty());
        tunnel
    }

    /// What the tunnel is called: its name, or its destination where it has none.
    pub fn display_name(&self) -> (name: String)
        ensures
            name@ == self@.display_name(),
    {
        let name = trimmed(self.name.as_str());
        if name.as_str().is_empty() {
            self.destination_endpoint()
        } else {
            name
        }
    }

    /// The value of `-L` for this tunnel.
    pub fn forward_spec(&self) -> (spec: String)
        ensures
            spec@ == self@.forward_spec(),
    {
        let mut text = String::new();
        if let Some(address) = &self.bind_address {
            text.append(address.as_str());
            text.push(':');
        }
        push_decimal(&mut text, self.local_port as u64);
        assert(text@ =~= self@.forward_local());
        text.push(':');
        let host = self.destination_host.as_str();
        if has_char(host, ':') && host.get_char(0) != '[' {
            text.push('[');
            text.append(host);
            text.push(']');
        } else {
            text.append(host);
        }
        assert(text@ =~= self@.forward_local() + seq![':'] + self@.forward_destination());
        text.push(':');
        push_decimal(&mut text, self.destination_port as u64);
        text
    }

    /// Where the tunnel listens, for display.
    pub fn local_endpoint(&self) -> (endpoint: String)
        ensures
            endpoint@ == self@.local_endpoint(),
    {
        let mut text = String::new();
        match &self.bind_address {
            Some(address) if !address.as_str().is_empty() => {
                text.append(address.as_str());
            },
            _ => {
                text.append("localhost");
            },
        }
        text.push(':');
        push_decimal(&mut text, self.local_port as u64);
        text
    }

    /// Where the tunnel leads, for display.
    pub fn destination_endpoint(&self) -> (endpoint: String)
        ensures
            endpoint@ == self@.destination_endpoint(),
    {
        let mut text = self.destination_host.clone();
        text.push(':');
        push_decimal(&mut text, self.destination_port as u64);
        text
    }

    fn browser_host(&self) -> (host: String)
        ensures
            host@ == self@.browser_host(),
    {
        let host = match &self.bind_address {
            Some(address) => trimmed(address.as_str()),
            None => String::new(),
        };
        let chars = chars_of(host.as_str());
        let host = if chars.len() >= 2 && chars[0] == '[' && chars[chars.len() - 1] == ']' {
            text_between(&chars, 1, chars.len() - 1)
        } else {
            host
        };
        let folded = lowered(host.as_str());
        let folded = folded.as_str();
        if host.as_str().is_empty() || same_text(folded, "*") || same_text(folded, "0.0.0.0")
            || same_text(folded, "::") {
            "localhost".to_owned()
        } else {
            host
        }
    }

    /// The URL that a browser opens to reach the tunnel's local end.
    pub fn browser_url(&self) -> (url: String)
        ensures
            url@ == self@.browser_url(),
    {
        let host = self.browser_host();
        let mut text = String::new();
        if has_char(host.as_str(), ':') {
            text.append("http://[");
            text.append(host.as_str());
            text.append("]:");
        } else {
            text.append("http://");
            text.append(host.as_str());
            text.append(":");
        }
        push_decimal(&mut text, self.local_port as u64);
        text.append("/");
        text
    }

    /// Whether others than this machine can reach the tunnel's local end.
    pub fn exposes_beyond_loopback(&self) -> (exposed: bool)
        ensures
            exposed == self@.exposes_beyond_loopback(),
    {
        match &self.bind_address {
            Some(address) => is_beyond_loopback(address.as_str()),
            None => false,
        }
    }

    /// Whether `ssh` may be started for this tunnel.
    pub fn is_safe_to_run(&self) -> (safe: bool)
        ensures
            safe == self@.is_safe_to_run(),
    {
        is_valid_host_target(self.ssh_host.as_str()) && is_valid_destination_host(
            self.destination_host.as_str(),
        ) && are_additional_arguments_safe(self.additional_arguments.as_slice())
    }

    /// The arguments that `ssh` is started with.
    pub fn ssh_arguments(&self) -> (arguments: Vec<String>)
        ensures
            texts(arguments@) == self@.ssh_arguments(),
    {
        let mut arguments: Vec<String> = vec![
            "-N".to_owned(),
            "-T".to_owned(),
            "-o".to_owned(),
            "BatchMode=yes".to_owned(),
            "-o".to_owned(),
            "ConnectTimeout=10".to_owned(),
            "-o".to_owned(),
            "ExitOnForwardFailure=yes".to_owned(),
            "-o".to_owned(),
            "ServerAliveInterval=30".to_owned(),
            "-o".to_owned(),
            "ServerAliveCountMax=3".to_owned(),
            "-L".to_owned(),
            self.forward_spec(),
        ];
        let ghost head = texts(arguments@);
        push_texts(&mut arguments, self.additional_arguments.as_slice());
        let ghost body = arguments@;
        arguments.push(self.ssh_host.clone());
        assert(texts(arguments@) =~= texts(body).push(self.ssh_host@));
        assert(texts(arguments@) =~= self@.ssh_arguments());
        arguments
    }
}

/// What a phase tells.
#[verifier::ext_equal]
pub enum PhaseModel {
    Stopped,
    Starting,
    Retrying { attempt: u32, max_attempts: u32, delay_seconds: u64, message: Seq<char> },
    Running,
    Failed(Seq<char>),
}

impl PhaseModel {
    /// Whether a tunnel in this phase is up or on its way up.
    pub open spec fn is_active(self) -> bool {
        self is Starting || self is Retrying || self is Running
    }
}

/// Where a tunnel stands between stopped and running.
#[derive(Debug, PartialEq)]
pub enum TunnelPhase {
    Stopped,
    Starting,
    Retrying { attempt: u32, max_attempts: u32, delay_seconds: u64, message: String },
    Running,
    Failed(String),
}

impl View for TunnelPhase {
    type V = PhaseModel;

    open spec fn view(&self) -> PhaseModel {
        match *self {
            TunnelPhase::Stopped => PhaseModel::Stopped,
            TunnelPhase::Starting => PhaseModel::Starting,
            TunnelPhase::Retrying { attempt, max_attempts, delay_seconds, message } =>
                PhaseModel::Retrying { attempt, max_attempts, delay_seconds, message: message@ },
            TunnelPhase::Running => PhaseModel::Running,
            TunnelPhase::Failed(message) => PhaseModel::Failed(message@),
        }
    }
}

impl Default for TunnelPhase {
    fn default() -> (phase: Self)
        ensures
            phase@ == PhaseModel::Stopped,
    {
        TunnelPhase::Stopped
    }
}

impl Clone for TunnelPhase {
    fn clone(&self) -> (copy: Self)
        ensures
            copy@ == self@,
    {
        match self {
            TunnelPhase::Stopped => TunnelPhase::Stopped,
            TunnelPhase::Starting => TunnelPhase::Starting,
            TunnelPhase::Retrying { attempt, max_attempts, delay_seconds, message } =>
                TunnelPhase::Retrying {
                attempt: *attempt,
                max_attempts: *max_attempts,
                delay_seconds: *delay_seconds,
                message: message.clone(),
            },
            TunnelPhase::Running => TunnelPhase::Running,
            TunnelPhase::Failed(message) => TunnelPhase::Failed(message.clone()),
        }
    }
}

impl TunnelPhase {
    /// Whether a tunnel in this phase is up or on its way up.
    pub fn is_active(&self) -> (active: bool)
        ensures
            active == self@.is_active(),
    {
        match self {
            TunnelPhase::Starting => true,
            TunnelPhase::Retrying { .. } => true,
            TunnelPhase::Running => true,
            TunnelPhase::Stopped => false,
            TunnelPhase::Failed(_) => false,
        }
    }
}

/// The host of a tunnel that may run comes last in its command and does not begin with a dash, so
/// `ssh` cannot take it for an option.
pub proof fn law_host_is_never_an_option(tunnel: TunnelModel)
    requires
        tunnel.is_safe_to_run(),
    ensures
        tunnel.ssh_arguments().last() == tunnel.ssh_host,
        tunnel.ssh_host.len() > 0,
        tunnel.ssh_host[0] != '-',
{
    let host = tunnel.ssh_host;
    if host.len() > 0 && host[0] == '-' {
        lemma_trim_keeps_first(host);
    }
}

/// White space around a host does not matter for whether it is valid.
pub proof fn law_host_validity_ignores_white_space_around(host: Seq<char>)
    ensures
        valid_host_target(trim(host)) == valid_host_target(host),
        valid_destination_host(trim(host)) == valid_destination_host(host),
{
    law_trim_is_idempotent(host);
}

} // verus!
