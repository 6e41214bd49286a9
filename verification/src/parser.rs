//! The import of a pasted `ssh` command that forwards a port.

use vstd::prelude::*;
use vstd::string::*;

use crate::model::{
    allowed_flags, attached_option, attached_option_prefixes, attached_option_safe,
    is_allowed_flag, is_option_with_value, is_safe_openssh_option, is_valid_host_target,
    optional_text, options_with_values, safe_openssh_option, valid_host_target,
};
use crate::text::{
    chars_of, is_one_of, is_white_space, last_index, last_index_of, lemma_last_index, number_of,
    parse_number, rsplit_once, same_text, str_texts, text_between, texts, trim, trimmed,
};

verus! {

/// What an error tells.
#[verifier::ext_equal]
pub enum ParseErrorModel {
    Empty,
    NotSsh,
    UnclosedQuote,
    MissingForward,
    InvalidForward,
    MissingHost,
    MissingOptionValue(Seq<char>),
    UnsupportedOption(Seq<char>),
    UnsafeOption(Seq<char>),
    RemoteCommand,
}

/// Why a command cannot be imported.
#[derive(Debug, PartialEq)]
pub enum ParseError {
    Empty,
    NotSsh,
    UnclosedQuote,
    MissingForward,
    InvalidForward,
    MissingHost,
    MissingOptionValue(String),
    UnsupportedOption(String),
    UnsafeOption(String),
    RemoteCommand,
}

impl View for ParseError {
    type V = ParseErrorModel;

    open spec fn view(&self) -> ParseErrorModel {
        match *self {
            ParseError::Empty => ParseErrorModel::Empty,
            ParseError::NotSsh => ParseErrorModel::NotSsh,
            ParseError::UnclosedQuote => ParseErrorModel::UnclosedQuote,
            ParseError::MissingForward => ParseErrorModel::MissingForward,
            ParseError::InvalidForward => ParseErrorModel::InvalidForward,
            ParseError::MissingHost => ParseErrorModel::MissingHost,
            ParseError::MissingOptionValue(option) => ParseErrorModel::MissingOptionValue(option@),
            ParseError::UnsupportedOption(option) => ParseErrorModel::UnsupportedOption(option@),
            ParseError::UnsafeOption(option) => ParseErrorModel::UnsafeOption(option@),
            ParseError::RemoteCommand => ParseErrorModel::RemoteCommand,
        }
    }
}

impl ParseErrorModel {
    /// The sentence that explains the error.
    pub open spec fn message(self) -> Seq<char> {
        match self {
            ParseErrorModel::Empty => "Paste an SSH command first."@,
            ParseErrorModel::NotSsh => "The command needs to start with ssh."@,
            ParseErrorModel::UnclosedQuote => "One of the quotes in the command is not closed."@,
            ParseErrorModel::MissingForward => "The command needs one -L forward."@,
            ParseErrorModel::InvalidForward => "Use -L localPort:host:remotePort."@,
            ParseErrorModel::MissingHost => "The SSH host is missing."@,
            ParseErrorModel::MissingOptionValue(option) => option + " needs a value."@,
            ParseErrorModel::UnsupportedOption(option) => option
                + " is not supported by the quick importer."@,
            ParseErrorModel::UnsafeOption(option) => option
                + " is blocked because it can execute commands or access arbitrary files."@,
            ParseErrorModel::RemoteCommand =>
                "RelayBar only imports forwarding commands, not remote commands."@,
        }
    }
}

impl ParseError {
    /// The sentence that explains the error to the user.
    pub fn message(&self) -> (message: String)
        ensures
            message@ == self@.message(),
    {
        match self {
            ParseError::Empty => "Paste an SSH command first.".to_owned(),
            ParseError::NotSsh => "The command needs to start with ssh.".to_owned(),
            ParseError::UnclosedQuote =>
                "One of the quotes in the command is not closed.".to_owned(),
            ParseError::MissingForward => "The command needs one -L forward.".to_owned(),
            ParseError::InvalidForward => "Use -L localPort:host:remotePort.".to_owned(),
            ParseError::MissingHost => "The SSH host is missing.".to_owned(),
            ParseError::MissingOptionValue(option) => option.clone().concat(" needs a value."),
            ParseError::UnsupportedOption(option) => option.clone().concat(
                " is not supported by the quick importer.",
            ),
            ParseError::UnsafeOption(option) => option.clone().concat(
                " is blocked because it can execute commands or access arbitrary files.",
            ),
            ParseError::RemoteCommand =>
                "RelayBar only imports forwarding commands, not remote commands.".to_owned(),
        }
    }
}

/// How far a command has been read: the words that are complete, the one that is being read, and
/// what the next character means.
#[verifier::ext_equal]
pub struct Lexer {
    pub tokens: Seq<Seq<char>>,
    pub current: Seq<char>,
    /// The quote that is open.
    pub quote: Option<char>,
    /// Whether a backslash stands in front of the next character.
    pub escaping: bool,
    /// Whether a word has begun, an empty quoted one included.
    pub started: bool,
}

impl Lexer {
    pub open spec fn start() -> Lexer {
        Lexer {
            tokens: Seq::empty(),
            current: Seq::empty(),
            quote: None,
            escaping: false,
            started: false,
        }
    }

    /// The character joins the word.
    pub open spec fn take_char(self, c: char) -> Lexer {
        Lexer { current: self.current.push(c), escaping: false, started: true, ..self }
    }

    /// The word, if one has begun, is complete.
    pub open spec fn end_word(self) -> Lexer {
        if self.started {
            Lexer {
                tokens: self.tokens.push(self.current),
                current: Seq::empty(),
                started: false,
                ..self
            }
        } else {
            self
        }
    }

    pub open spec fn step(self, c: char) -> Lexer {
        if self.escaping {
            self.take_char(c)
        } else if c == '\\' && self.quote != Some('\'') {
            Lexer { escaping: true, started: true, ..self }
        } else if self.quote is Some {
            if self.quote == Some(c) {
                Lexer { quote: None, started: true, ..self }
            } else {
                self.take_char(c)
            }
        } else if c == '"' || c == '\'' {
            Lexer { quote: Some(c), started: true, ..self }
        } else if is_white_space(c) {
            self.end_word()
        } else {
            self.take_char(c)
        }
    }

    /// The lexer after it has read `s`.
    pub open spec fn read(self, s: Seq<char>) -> Lexer
        decreases s.len(),
    {
        if s.len() == 0 {
            self
        } else {
            self.read(s.drop_last()).step(s.last())
        }
    }

    /// The words of a command that ends here. A backslash at the end stands for itself.
    pub open spec fn finish(self) -> Result<Seq<Seq<char>>, ParseErrorModel> {
        if self.quote is Some {
            Err(ParseErrorModel::UnclosedQuote)
        } else if self.escaping {
            Ok(self.take_char('\\').end_word().tokens)
        } else {
            Ok(self.end_word().tokens)
        }
    }
}

/// The words of a command: split at white space, with single quotes, double quotes and backslashes
/// read as a shell reads them.
pub open spec fn words(command: Seq<char>) -> Result<Seq<Seq<char>>, ParseErrorModel> {
    Lexer::start().read(trim(command)).finish()
}

/// The words of a command.
pub fn tokenize(command: &str) -> (tokens: Result<Vec<String>, ParseError>)
    ensures
        match tokens {
            Ok(tokens) => words(command@) == Ok::<_, ParseErrorModel>(texts(tokens@)),
            Err(error) => words(command@) == Err::<Seq<Seq<char>>, _>(error@),
        },
{
    let chars = chars_of(trimmed(command).as_str());
    let mut tokens: Vec<String> = Vec::new();
    let mut current = String::new();
    let mut quote: Option<char> = None;
    let mut escaping = false;
    let mut token_started = false;
    let mut i: usize = 0;
    assert(texts(tokens@) =~= Seq::empty());
    assert(chars@.take(0) =~= Seq::empty());
    while i < chars.len()
        invariant
            i <= chars@.len(),
            Lexer::start().read(chars@.take(i as int)) == (Lexer {
                tokens: texts(tokens@),
                current: current@,
                quote,
                escaping,
                started: token_started,
            }),
        decreases chars@.len() - i,
    {
        let character = chars[i];
        let ghost before = Lexer::start().read(chars@.take(i as int));
        assert(chars@.take(i + 1).drop_last() =~= chars@.take(i as int));
        assert(Lexer::start().read(chars@.take(i + 1)) == before.step(character));
        if escaping {
            current.push(character);
            token_started = true;
            escaping = false;
        } else if character == '\\' && quote != Some('\'') {
            escaping = true;
            token_started = true;
        } else if let Some(active_quote) = quote {
            if character == active_quote {
                quote = None;
            } else {
                current.push(character);
            }
            token_started = true;
        } else if character == '"' || character == '\'' {
            quote = Some(character);
            token_started = true;
        } else if character.is_whitespace() {
            if token_started {
                let ghost old_tokens = tokens@;
                tokens.push(current);
                assert(texts(tokens@) =~= texts(old_tokens).push(before.current));
                current = String::new();
                token_started = false;
            }
        } else {
            current.push(character);
            token_started = true;
        }
        i += 1;
    }
    assert(chars@.take(chars@.len() as int) =~= chars@);
    if quote.is_some() {
        return Err(ParseError::UnclosedQuote);
    }
    if escaping {
        current.push('\\');
    }
    if token_started {
        let ghost old_tokens = tokens@;
        let ghost last = current@;
        tokens.push(current);
        assert(texts(tokens@) =~= texts(old_tokens).push(last));
    }
    Ok(tokens)
}

/// The last component of a path with `/` between its components: empty components and `.` do not
/// count, and a path that ends in `..` has none.
pub open spec fn file_name(path: Seq<char>) -> Option<Seq<char>>
    decreases path.len(),
{
    match last_index(path, '/') {
        Some(i) => {
            let last = path.skip(i + 1);
            if last.len() == 0 || last == "."@ {
                proof {
                    lemma_last_index(path, '/');
                }
                file_name(path.take(i))
            } else if last == ".."@ {
                None
            } else {
                Some(last)
            }
        },
        None => if path.len() == 0 || path == "."@ || path == ".."@ {
            None
        } else {
            Some(path)
        },
    }
}

/// Whether the last component of a path is `ssh`.
fn names_ssh(path: &str) -> (named: bool)
    ensures
        named == (file_name(path@) == Some("ssh"@)),
{
    let chars = chars_of(path);
    let mut end: usize = chars.len();
    assert(chars@.take(end as int) =~= path@);
    loop
        invariant
            end <= chars@.len(),
            file_name(path@) == file_name(chars@.take(end as int)),
        decreases end,
    {
        let ghost part = chars@.take(end as int);
        match last_index_of(&chars, end, '/') {
            Some(slash) => {
                let last = text_between(&chars, slash + 1, end);
                assert(last@ =~= part.skip(slash + 1));
                if last.as_str().is_empty() || same_text(last.as_str(), ".") {
                    assert(part.take(slash as int) =~= chars@.take(slash as int));
                    end = slash;
                } else {
                    proof {
                        reveal_strlit("ssh");
                        reveal_strlit("..");
                    }
                    return same_text(last.as_str(), "ssh");
                }
            },
            None => {
                let last = text_between(&chars, 0, end);
                assert(last@ =~= part);
                proof {
                    reveal_strlit("ssh");
                    reveal_strlit(".");
                    reveal_strlit("..");
                }
                return same_text(last.as_str(), "ssh");
            },
        }
    }
}

/// What the value of `-L` asks for.
#[verifier::ext_equal]
pub struct ForwardModel {
    pub local_port: u16,
    pub destination_host: Seq<char>,
    pub destination_port: u16,
    pub bind_address: Option<Seq<char>>,
}

/// The port that `s` writes: a number from 1 to 65535.
pub open spec fn port_of(s: Seq<char>) -> Option<u16> {
    match parse_number(s) {
        Some(port) => if port > 0 {
            Some(port)
        } else {
            None
        },
        None => None,
    }
}

/// What stands in front of the destination's host, and the host. A host that ends in a bracket
/// begins at the last opening bracket, which a colon must precede.
pub open spec fn split_destination(s: Seq<char>) -> Option<(Seq<char>, Seq<char>)> {
    if s.len() > 0 && s.last() == ']' {
        match last_index(s, '[') {
            Some(k) => if k > 0 && s[k - 1] == ':' {
                Some((s.take(k - 1), s.subrange(k + 1, s.len() - 1)))
            } else {
                None
            },
            None => None,
        }
    } else {
        rsplit_once(s, ':')
    }
}

/// The bind address, if there is one, and the local port.
pub open spec fn split_local(s: Seq<char>) -> Option<(Option<Seq<char>>, u16)> {
    match rsplit_once(s, ':') {
        Some((address, port)) => match port_of(port) {
            Some(port) => if address.len() > 0 {
                Some((Some(address), port))
            } else {
                None
            },
            None => None,
        },
        None => match port_of(s) {
            Some(port) => Some((None, port)),
            None => None,
        },
    }
}

/// What `[address:]port:host:port` asks for, if `specification` has that form.
pub open spec fn forward_of(specification: Seq<char>) -> Option<ForwardModel> {
    match rsplit_once(specification, ':') {
        Some((front, destination_port)) => match (
            port_of(destination_port),
            split_destination(front),
        ) {
            (Some(destination_port), Some((local, destination_host))) => match split_local(local) {
                Some((bind_address, local_port)) => if destination_host.len() > 0 {
                    Some(
                        ForwardModel { local_port, destination_host, destination_port, bind_address },
                    )
                } else {
                    None
                },
                None => None,
            },
            _ => None,
        },
        None => None,
    }
}

/// Reads a port, which is not zero.
pub fn parse_port(value: &str) -> (port: Result<u16, ParseError>)
    ensures
        match port {
            Ok(port) => port_of(value@) == Some(port),
            Err(error) => port_of(value@) is None && error == ParseError::InvalidForward,
        },
{
    match number_of(value) {
        Some(port) if port > 0 => Ok(port),
        _ => Err(ParseError::InvalidForward),
    }
}

/// The parts of a string in front of and behind its last `c`.
fn split_at_last(s: &str, c: char) -> (parts: Option<(String, String)>)
    ensures
        match parts {
            Some((front, back)) => rsplit_once(s@, c) == Some((front@, back@)),
            None => rsplit_once(s@, c) is None,
        },
{
    let chars = chars_of(s);
    assert(chars@.take(chars@.len() as int) =~= s@);
    match last_index_of(&chars, chars.len(), c) {
        Some(i) => {
            let front = text_between(&chars, 0, i);
            let back = text_between(&chars, i + 1, chars.len());
            assert(front@ =~= s@.take(i as int));
            assert(back@ =~= s@.skip(i + 1));
            Some((front, back))
        },
        None => None,
    }
}

/// Splits the host of a destination from what stands in front of it.
fn destination_parts(s: &str) -> (parts: Option<(String, String)>)
    ensures
        match parts {
            Some((front, host)) => split_destination(s@) == Some((front@, host@)),
            None => split_destination(s@) is None,
        },
{
    let chars = chars_of(s);
    let len = chars.len();
    if len > 0 && chars[len - 1] == ']' {
        assert(chars@.take(len as int) =~= s@);
        match last_index_of(&chars, len, '[') {
            Some(opening) => {
                if opening == 0 || chars[opening - 1] != ':' {
                    return None;
                }
                let front = text_between(&chars, 0, opening - 1);
                let host = text_between(&chars, opening + 1, len - 1);
                assert(front@ =~= s@.take(opening - 1));
                Some((front, host))
            },
            None => None,
        }
    } else {
        split_at_last(s, ':')
    }
}

/// Reads the value of `-L`: the local port, the destination's host and port, and the bind address.
pub fn parse_forward(specification: &str) -> (forward: Result<
    (u16, String, u16, Option<String>),
    ParseError,
>)
    ensures
        match forward {
            Ok((local_port, destination_host, destination_port, bind_address)) => forward_of(
                specification@,
            ) == Some(
                ForwardModel {
                    local_port,
                    destination_host: destination_host@,
                    destination_port,
                    bind_address: optional_text(bind_address),
                },
            ),
            Err(error) => forward_of(specification@) is None && error
                == ParseError::InvalidForward,
        },
{
    let (front, port_text) = match split_at_last(specification, ':') {
        Some(parts) => parts,
        None => {
            return Err(ParseError::InvalidForward);
        },
    };
    let destination_port = parse_port(port_text.as_str())?;
    let (local, destination_host) = match destination_parts(front.as_str()) {
        Some(parts) => parts,
        None => {
            return Err(ParseError::InvalidForward);
        },
    };
    if destination_host.as_str().is_empty() {
        return Err(ParseError::InvalidForward);
    }
    match split_at_last(local.as_str(), ':') {
        Some((address, port_text)) => {
            if address.as_str().is_empty() {
                return Err(ParseError::InvalidForward);
            }
            let local_port = parse_port(port_text.as_str())?;
            Ok((local_port, destination_host, destination_port, Some(address)))
        },
        None => {
            let local_port = parse_port(local.as_str())?;
            Ok((local_port, destination_host, destination_port, None))
        },
    }
}

/// What has been read of a command's arguments.
#[verifier::ext_equal]
pub struct Reading {
    pub forward: Option<Seq<char>>,
    pub ssh_host: Option<Seq<char>>,
    pub arguments: Seq<Seq<char>>,
}

/// The flags that the import drops: whoever runs the tunnel sets them.
pub open spec fn process_flags() -> Seq<Seq<char>> {
    seq!["-N"@, "-T"@, "-n"@, "-f"@]
}

/// What one argument, or one with its value, does to a reading, and how many words it takes.
pub enum Step {
    Taken(Reading, int),
    Refused(ParseErrorModel),
}

impl Reading {
    pub open spec fn start() -> Reading {
        Reading { forward: None, ssh_host: None, arguments: Seq::empty() }
    }

    /// A forward that takes `words` words; there may be only one.
    pub open spec fn with_forward(self, value: Seq<char>, words: int) -> Step {
        if self.forward is Some {
            Step::Refused(ParseErrorModel::UnsupportedOption("Multiple -L forwards"@))
        } else {
            Step::Taken(Reading { forward: Some(value), ..self }, words)
        }
    }

    /// The first of the words that are left, with its value where it takes one.
    pub open spec fn step(self, tokens: Seq<Seq<char>>) -> Step
        recommends
            tokens.len() > 0,
    {
        let token = tokens[0];
        if self.ssh_host is Some {
            Step::Refused(ParseErrorModel::RemoteCommand)
        } else if token == "--"@ {
            if tokens.len() < 2 {
                Step::Refused(ParseErrorModel::MissingHost)
            } else {
                Step::Taken(Reading { ssh_host: Some(tokens[1]), ..self }, 2)
            }
        } else if token == "-L"@ {
            if tokens.len() < 2 {
                Step::Refused(ParseErrorModel::MissingOptionValue("-L"@))
            } else {
                self.with_forward(tokens[1], 2)
            }
        } else if token.len() > 2 && token.take(2) == "-L"@ {
            self.with_forward(token.skip(2), 1)
        } else if process_flags().contains(token) {
            Step::Taken(self, 1)
        } else if allowed_flags().contains(token) {
            Step::Taken(Reading { arguments: self.arguments.push(token), ..self }, 1)
        } else if options_with_values().contains(token) {
            if tokens.len() < 2 {
                Step::Refused(ParseErrorModel::MissingOptionValue(token))
            } else if token == "-o"@ && !safe_openssh_option(tokens[1]) {
                Step::Refused(ParseErrorModel::UnsafeOption("-o "@ + tokens[1]))
            } else {
                Step::Taken(
                    Reading { arguments: self.arguments.push(token).push(tokens[1]), ..self },
                    2,
                )
            }
        } else if token.len() > 0 && token[0] == '-' {
            if token.len() <= 2 || !attached_option_prefixes().contains(token.take(2)) {
                Step::Refused(ParseErrorModel::UnsupportedOption(token))
            } else if !attached_option_safe(token) {
                Step::Refused(ParseErrorModel::UnsafeOption(token))
            } else {
                Step::Taken(Reading { arguments: self.arguments.push(token), ..self }, 1)
            }
        } else {
            Step::Taken(Reading { ssh_host: Some(token), ..self }, 1)
        }
    }

    /// The reading after all the words that are left, or the first error among them.
    pub open spec fn read(self, tokens: Seq<Seq<char>>) -> Result<Reading, ParseErrorModel>
        decreases tokens.len(),
    {
        if tokens.len() == 0 {
            Ok(self)
        } else {
            match self.step(tokens) {
                Step::Taken(next, words) => next.read(tokens.skip(words)),
                Step::Refused(error) => Err(error),
            }
        }
    }
}

/// What an import yields.
#[verifier::ext_equal]
pub struct ImportModel {
    pub local_port: u16,
    pub destination_host: Seq<char>,
    pub destination_port: u16,
    pub ssh_host: Seq<char>,
    pub bind_address: Option<Seq<char>>,
    pub additional_arguments: Seq<Seq<char>>,
}

/// What a reading of a whole command yields: it needs a forward and a host.
pub open spec fn import_of_reading(reading: Reading) -> Result<ImportModel, ParseErrorModel> {
    if reading.forward is None {
        Err(ParseErrorModel::MissingForward)
    } else if reading.ssh_host is None || !valid_host_target(reading.ssh_host->0) {
        Err(ParseErrorModel::MissingHost)
    } else {
        match forward_of(reading.forward->0) {
            Some(forward) => Ok(
                ImportModel {
                    local_port: forward.local_port,
                    destination_host: forward.destination_host,
                    destination_port: forward.destination_port,
                    ssh_host: reading.ssh_host->0,
                    bind_address: forward.bind_address,
                    additional_arguments: reading.arguments,
                },
            ),
            None => Err(ParseErrorModel::InvalidForward),
        }
    }
}

/// What the words of a command yield: the first must name `ssh`.
pub open spec fn import_of_words(tokens: Seq<Seq<char>>) -> Result<ImportModel, ParseErrorModel> {
    if tokens.len() == 0 {
        Err(ParseErrorModel::Empty)
    } else if file_name(tokens[0]) != Some("ssh"@) {
        Err(ParseErrorModel::NotSsh)
    } else {
        match Reading::start().read(tokens.skip(1)) {
            Ok(reading) => import_of_reading(reading),
            Err(error) => Err(error),
        }
    }
}

/// What a command yields.
pub open spec fn import_of(command: Seq<char>) -> Result<ImportModel, ParseErrorModel> {
    match words(command) {
        Ok(tokens) => import_of_words(tokens),
        Err(error) => Err(error),
    }
}

/// A tunnel read from an `ssh` command.
#[derive(Debug, PartialEq)]
pub struct ImportedTunnel {
    pub local_port: u16,
    pub destination_host: String,
    pub destination_port: u16,
    pub ssh_host: String,
    pub bind_address: Option<String>,
    pub additional_arguments: Vec<String>,
}

impl View for ImportedTunnel {
    type V = ImportModel;

    open spec fn view(&self) -> ImportModel {
        ImportModel {
            local_port: self.local_port,
            destination_host: self.destination_host@,
            destination_port: self.destination_port,
            ssh_host: self.ssh_host@,
            bind_address: optional_text(self.bind_address),
            additional_arguments: texts(self.additional_arguments@),
        }
    }
}

/// Whether `token` is a flag that the import drops.
fn is_process_flag(token: &str) -> (dropped: bool)
    ensures
        dropped == process_flags().contains(token@),
{
    let names: [&str; 4] = ["-N", "-T", "-n", "-f"];
    assert(str_texts(names@) =~= process_flags());
    is_one_of(token, &names)
}

/// The value of a forward that stands behind `-L` in the same word.
fn attached_forward(token: &str) -> (value: Option<String>)
    ensures
        match value {
            Some(value) => token@.len() > 2 && token@.take(2) == "-L"@ && value@ == token@.skip(2),
            None => !(token@.len() > 2 && token@.take(2) == "-L"@),
        },
{
    let chars = chars_of(token);
    if chars.len() <= 2 {
        return None;
    }
    let prefix = text_between(&chars, 0, 2);
    assert(prefix@ =~= token@.take(2));
    if same_text(prefix.as_str(), "-L") {
        let value = text_between(&chars, 2, chars.len());
        assert(value@ =~= token@.skip(2));
        Some(value)
    } else {
        None
    }
}

fn multiple_forwards() -> (error: ParseError)
    ensures
        error@ == ParseErrorModel::UnsupportedOption("Multiple -L forwards"@),
{
    ParseError::UnsupportedOption("Multiple -L forwards".to_owned())
}

/// Imports the forward, the host and the safe options of an `ssh` command.
pub fn parse(command: &str) -> (imported: Result<ImportedTunnel, ParseError>)
    ensures
        match imported {
            Ok(tunnel) => import_of(command@) == Ok::<_, ParseErrorModel>(tunnel@),
            Err(error) => import_of(command@) == Err::<ImportModel, _>(error@),
        },
{
    let tokens = match tokenize(command) {
        Ok(tokens) => tokens,
        Err(error) => {
            return Err(error);
        },
    };
    let ghost all = texts(tokens@);
    if tokens.len() == 0 {
        return Err(ParseError::Empty);
    }
    assert(all[0] == tokens@[0]@);
    if !names_ssh(tokens[0].as_str()) {
        return Err(ParseError::NotSsh);
    }
    let mut forward: Option<String> = None;
    let mut ssh_host: Option<String> = None;
    let mut additional_arguments: Vec<String> = Vec::new();
    let mut index: usize = 1;
    let ghost outcome = Reading::start().read(all.skip(1));
    assert(texts(additional_arguments@) =~= Seq::empty());
    while index < tokens.len()
        invariant
            1 <= index <= tokens@.len(),
            all == texts(tokens@),
            words(command@) == Ok::<_, ParseErrorModel>(all),
            file_name(all[0]) == Some("ssh"@),
            outcome == Reading::start().read(all.skip(1)),
            outcome == (Reading {
                forward: optional_text(forward),
                ssh_host: optional_text(ssh_host),
                arguments: texts(additional_arguments@),
            }).read(all.skip(index as int)),
        decreases tokens@.len() - index,
    {
        let ghost rest = all.skip(index as int);
        let ghost reading = Reading {
            forward: optional_text(forward),
            ssh_host: optional_text(ssh_host),
            arguments: texts(additional_arguments@),
        };
        let ghost arguments = additional_arguments@;
        let token = tokens[index].as_str();
        assert(rest[0] == token@);
        assert(index + 1 < tokens@.len() ==> rest[1] == tokens@[index + 1]@);
        assert(index + 1 < tokens@.len() ==> rest.skip(2) =~= all.skip(index + 2));
        assert(rest.skip(1) =~= all.skip(index + 1));
        if ssh_host.is_some() {
            return Err(ParseError::RemoteCommand);
        }
        if same_text(token, "--") {
            index += 1;
            if index >= tokens.len() {
                return Err(ParseError::MissingHost);
            }
            ssh_host = Some(tokens[index].clone());
        } else if same_text(token, "-L") {
            index += 1;
            if index >= tokens.len() {
                return Err(ParseError::MissingOptionValue("-L".to_owned()));
            }
            if forward.is_some() {
                return Err(multiple_forwards());
            }
            forward = Some(tokens[index].clone());
        } else if let Some(value) = attached_forward(token) {
            if forward.is_some() {
                return Err(multiple_forwards());
            }
            forward = Some(value);
        } else if is_process_flag(token) {
        } else if is_allowed_flag(token) {
            additional_arguments.push(tokens[index].clone());
            assert(texts(additional_arguments@) =~= texts(arguments).push(token@));
        } else if is_option_with_value(token) {
            index += 1;
            if index >= tokens.len() {
                return Err(ParseError::MissingOptionValue(token.to_owned()));
            }
            let value = tokens[index].as_str();
            if same_text(token, "-o") && !is_safe_openssh_option(value) {
                return Err(ParseError::UnsafeOption("-o ".to_owned().concat(value)));
            }
            additional_arguments.push(token.to_owned());
            additional_arguments.push(value.to_owned());
            assert(texts(additional_arguments@) =~= texts(arguments).push(token@).push(value@));
        } else if !token.is_empty() && token.get_char(0) == '-' {
            match attached_option(token) {
                None => {
                    return Err(ParseError::UnsupportedOption(token.to_owned()));
                },
                Some((prefix, value)) => {
                    if same_text(prefix.as_str(), "-o") && !is_safe_openssh_option(value.as_str()) {
                        return Err(ParseError::UnsafeOption(token.to_owned()));
                    }
                    additional_arguments.push(token.to_owned());
                    assert(texts(additional_arguments@) =~= texts(arguments).push(token@));
                },
            }
        } else {
            ssh_host = Some(token.to_owned());
        }
        index += 1;
    }
    assert(all.skip(index as int).len() == 0);
    let forward = match forward {
        Some(forward) => forward,
        None => {
            return Err(ParseError::MissingForward);
        },
    };
    let ssh_host = match ssh_host {
        Some(host) => host,
        None => {
            return Err(ParseError::MissingHost);
        },
    };
    if !is_valid_host_target(ssh_host.as_str()) {
        return Err(ParseError::MissingHost);
    }
    match parse_forward(forward.as_str()) {
        Ok((local_port, destination_host, destination_port, bind_address)) => Ok(
            ImportedTunnel {
                local_port,
                destination_host,
                destination_port,
                ssh_host,
                bind_address,
                additional_arguments,
            },
        ),
        Err(error) => Err(error),
    }
}

} // verus!
