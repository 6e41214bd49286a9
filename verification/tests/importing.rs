use relaybar::model::{are_additional_arguments_safe, is_valid_host_target, Tunnel};
use relaybar::parser::{parse, parse_forward, parse_port, tokenize, ParseError};

#[test]
fn parses_basic_forward() {
    let tunnel = parse("ssh -N -L 8080:localhost:3000 user@example.com").unwrap();
    assert_eq!(tunnel.local_port, 8080);
    assert_eq!(tunnel.destination_host, "localhost");
    assert_eq!(tunnel.destination_port, 3000);
    assert_eq!(tunnel.ssh_host, "user@example.com");
    assert_eq!(tunnel.bind_address, None);
}

#[test]
fn preserves_bind_ipv6_and_safe_options() {
    let tunnel =
        parse("ssh -p 2222 -o 'ConnectTimeout=5' -L0.0.0.0:5432:[::1]:5432 ops@bastion").unwrap();
    assert_eq!(tunnel.bind_address.as_deref(), Some("0.0.0.0"));
    assert_eq!(tunnel.destination_host, "::1");
    assert_eq!(
        tunnel.additional_arguments,
        ["-p", "2222", "-o", "ConnectTimeout=5"]
    );
}

#[test]
fn rejects_commands_and_unsafe_options() {
    assert_eq!(
        parse("ssh -L 8080:localhost:80 host uptime").unwrap_err(),
        ParseError::RemoteCommand
    );
    assert_eq!(
        parse("ssh -o 'ProxyCommand=whoami' -L 8080:localhost:80 host").unwrap_err(),
        ParseError::UnsafeOption("-o ProxyCommand=whoami".into())
    );
    assert_eq!(
        parse("ssh -F /tmp/config -L 8080:localhost:80 host").unwrap_err(),
        ParseError::UnsupportedOption("-F".into())
    );
}

#[test]
fn rejects_invalid_input() {
    assert_eq!(parse(""), Err(ParseError::Empty));
    assert_eq!(parse("scp file host:"), Err(ParseError::NotSsh));
    assert_eq!(
        parse("ssh -L '8080:host:80 host"),
        Err(ParseError::UnclosedQuote)
    );
    assert_eq!(parse("ssh host"), Err(ParseError::MissingForward));
    assert_eq!(
        parse("ssh -L 0:host:80 host"),
        Err(ParseError::InvalidForward)
    );
}

#[test]
fn every_error_has_its_input_and_its_message() {
    let cases = [
        ("", ParseError::Empty, "Paste an SSH command first."),
        ("sshd -L 1:h:1 h", ParseError::NotSsh, "The command needs to start with ssh."),
        (
            "ssh \"host",
            ParseError::UnclosedQuote,
            "One of the quotes in the command is not closed.",
        ),
        ("ssh host", ParseError::MissingForward, "The command needs one -L forward."),
        (
            "ssh -L 8080:host host",
            ParseError::InvalidForward,
            "Use -L localPort:host:remotePort.",
        ),
        ("ssh -L 1:h:1", ParseError::MissingHost, "The SSH host is missing."),
        (
            "ssh host -L",
            ParseError::RemoteCommand,
            "RelayBar only imports forwarding commands, not remote commands.",
        ),
        ("ssh -L", ParseError::MissingOptionValue("-L".into()), "-L needs a value."),
        ("ssh -p", ParseError::MissingOptionValue("-p".into()), "-p needs a value."),
        (
            "ssh -X -L 1:h:1 host",
            ParseError::UnsupportedOption("-X".into()),
            "-X is not supported by the quick importer.",
        ),
        (
            "ssh -L 1:h:1 -L2:h:2 host",
            ParseError::UnsupportedOption("Multiple -L forwards".into()),
            "Multiple -L forwards is not supported by the quick importer.",
        ),
        (
            "ssh -oLocalCommand=whoami -L 1:h:1 host",
            ParseError::UnsafeOption("-oLocalCommand=whoami".into()),
            "-oLocalCommand=whoami is blocked because it can execute commands or access arbitrary files.",
        ),
    ];
    for (command, error, message) in cases {
        assert_eq!(error.message(), message);
        assert_eq!(parse(command), Err(error), "{command}");
    }
}

#[test]
fn the_first_error_counts() {
    assert_eq!(
        parse("ssh -X -o ProxyCommand=x"),
        Err(ParseError::UnsupportedOption("-X".into()))
    );
    assert_eq!(parse("ssh -N host extra"), Err(ParseError::RemoteCommand));
    assert_eq!(parse("ssh --"), Err(ParseError::MissingHost));
    assert_eq!(parse("ssh -L bad ''"), Err(ParseError::MissingHost));
    assert_eq!(parse("ssh -L bad host"), Err(ParseError::InvalidForward));
    assert_eq!(
        parse("ssh -"),
        Err(ParseError::UnsupportedOption("-".into()))
    );
}

#[test]
fn finds_ssh_at_the_end_of_a_path() {
    for executable in [
        "ssh", "/usr/bin/ssh", "./ssh", "ssh/", "ssh//", "ssh/.", "ssh/./", "../ssh", "/ssh",
    ] {
        let command = format!("{executable} -L 1:h:2 host");
        assert!(parse(&command).is_ok(), "{executable}");
    }
    for executable in ["ssh/..", "..", ".", "/", "./", "SSH", "ssh.exe", "ssh/x", "xssh", "''"] {
        let command = format!("{executable} -L 1:h:2 host");
        assert_eq!(parse(&command), Err(ParseError::NotSsh), "{executable}");
    }
}

#[test]
fn file_names_agree_with_std_paths() {
    for path in [
        "", ".", "..", "/", "//", "a", "a/", "a/.", "a/..", "./", "./.", "../", "/a", "a//b", "a/./b/",
        "ssh", "ssh/.", "ssh/..", "/usr/bin/ssh", "a/ssh/./", "ssh/.x", ".ssh", "ssh.",
    ] {
        let named = std::path::Path::new(path)
            .file_name()
            .and_then(|name| name.to_str())
            == Some("ssh");
        let command = format!("'{path}' -L 1:h:2 host");
        assert_eq!(parse(&command).is_ok(), named, "{path}");
    }
}

#[test]
fn drops_process_flags_and_keeps_the_rest_in_order() {
    let tunnel = parse(
        "ssh -f -N -4 -T -n -J jump -iKEY -C -vvv -l me -L 127.0.0.1:1:db:2 -- user@host",
    )
    .unwrap();
    assert_eq!(tunnel.ssh_host, "user@host");
    assert_eq!(tunnel.bind_address.as_deref(), Some("127.0.0.1"));
    assert_eq!(
        tunnel.additional_arguments,
        ["-4", "-J", "jump", "-iKEY", "-C", "-vvv", "-l", "me"]
    );
}

#[test]
fn a_host_behind_the_dashes_is_still_checked() {
    assert_eq!(
        parse("ssh -L 1:h:2 -- -oProxyCommand=x"),
        Err(ParseError::MissingHost)
    );
    assert_eq!(parse("ssh -L 1:h:2 'a b'"), Err(ParseError::MissingHost));
}

#[test]
fn splits_plain_words() {
    assert_eq!(tokenize("ssh -N host").unwrap(), ["ssh", "-N", "host"]);
    assert_eq!(tokenize(" \t a \u{a0}\n b ").unwrap(), ["a", "b"]);
    assert!(tokenize("").unwrap().is_empty());
    assert!(tokenize(" \t\n").unwrap().is_empty());
}

#[test]
fn reads_quotes_and_backslashes() {
    assert_eq!(
        tokenize("'a b' \"c 'd'\" e\\ f \"g\\\"h\" 'i\\j'").unwrap(),
        ["a b", "c 'd'", "e f", "g\"h", "i\\j"]
    );
    assert_eq!(tokenize("a'b'\"c\"d").unwrap(), ["abcd"]);
    assert_eq!(tokenize("'' \"\" x").unwrap(), ["", "", "x"]);
    assert_eq!(tokenize("end\\").unwrap(), ["end\\"]);
    assert_eq!(tokenize("\\").unwrap(), ["\\"]);
    assert_eq!(tokenize("\\ ").unwrap(), ["\\"]);
    assert_eq!(tokenize("'open"), Err(ParseError::UnclosedQuote));
    assert_eq!(tokenize("\"open\\\""), Err(ParseError::UnclosedQuote));
    assert_eq!(tokenize("\"mix'"), Err(ParseError::UnclosedQuote));
}

#[test]
fn quoted_words_keep_everything() {
    let list = ["a b", "", "\\", "\"", "tab\there"];
    let quoted: Vec<String> = list.iter().map(|word| format!("'{word}'")).collect();
    assert_eq!(tokenize(&quoted.join(" ")).unwrap(), list);
}

#[test]
fn reads_ports() {
    assert_eq!(parse_port("1"), Ok(1));
    assert_eq!(parse_port("+443"), Ok(443));
    assert_eq!(parse_port("65535"), Ok(65535));
    for text in ["0", "00", "65536", "", "-1", "1.0", "http"] {
        assert_eq!(parse_port(text), Err(ParseError::InvalidForward), "{text}");
    }
}

#[test]
fn reads_forwards() {
    assert_eq!(
        parse_forward("8080:localhost:3000"),
        Ok((8080, "localhost".into(), 3000, None))
    );
    assert_eq!(
        parse_forward("[::1]:8080:[fe80::1]:3000"),
        Ok((8080, "fe80::1".into(), 3000, Some("[::1]".into())))
    );
    assert_eq!(
        parse_forward("*:1:a]b:2"),
        Ok((1, "a]b".into(), 2, Some("*".into())))
    );
    for text in [
        "", ":", "8080", "8080:host", "8080:host:", "8080::80", ":8080:host:80", "8080:[]:80",
        "8080:host]:80", "[host]:80", "8080[::1]:80", "x:host:80", "8080:host:x", "0:host:1",
        "1:host:0", "a:0:host:1", "ü[h]:80",
    ] {
        assert_eq!(parse_forward(text), Err(ParseError::InvalidForward), "{text}");
    }
}

fn written(bind_address: Option<&str>, destination_host: &str) -> Tunnel {
    let mut tunnel = Tunnel::new(
        String::new(),
        5432,
        destination_host.into(),
        80,
        "host".into(),
    );
    tunnel.bind_address = bind_address.map(str::to_owned);
    tunnel
}

#[test]
fn forwards_read_back() {
    for bind in [None, Some("*"), Some("::"), Some("[::1]"), Some("0.0.0.0")] {
        for host in ["localhost", "::1", "a:b", "10.0.0.1", "[odd"] {
            let tunnel = written(bind, host);
            assert_eq!(
                parse_forward(&tunnel.forward_spec()),
                Ok((5432, host.into(), 80, bind.map(str::to_owned))),
                "{bind:?} {host}"
            );
        }
    }
}

#[test]
fn unfit_forwards_do_not_read_back() {
    for (bind, host) in [
        (None, "[::1]"),
        (None, "a[:"),
        (None, "odd]"),
        (None, ""),
        (Some(""), "host"),
    ] {
        let tunnel = written(bind, host);
        assert_ne!(
            parse_forward(&tunnel.forward_spec()),
            Ok((5432, host.into(), 80, bind.map(str::to_owned))),
            "{bind:?} {host}"
        );
    }
    let mut tunnel = written(None, "host");
    tunnel.local_port = 0;
    assert_eq!(
        parse_forward(&tunnel.forward_spec()),
        Err(ParseError::InvalidForward)
    );
}

#[test]
fn imports_are_safe() {
    for command in [
        "ssh -L 1:h:2 host",
        "ssh -o 'User = x' -p 22 -L 1:h:2 host",
        "/bin/ssh -vv -oPort=3 -L '[::]:1:[::1]:2' -- host",
    ] {
        let tunnel = parse(command).unwrap();
        assert!(is_valid_host_target(&tunnel.ssh_host));
        assert!(are_additional_arguments_safe(&tunnel.additional_arguments));
        assert!(tunnel.local_port > 0 && tunnel.destination_port > 0);
        assert!(!tunnel.destination_host.is_empty());
        assert!(tunnel.bind_address.as_deref() != Some(""));
    }
}

#[test]
fn imported_forwards_are_kept() {
    for forward in ["8080:localhost:3000", "*:1:[::1]:2", "[::1]:1:10.0.0.1:2"] {
        let imported = parse(&format!("ssh -L {forward} host")).unwrap();
        let mut tunnel = Tunnel::new(
            String::new(),
            imported.local_port,
            imported.destination_host,
            imported.destination_port,
            imported.ssh_host,
        );
        tunnel.bind_address = imported.bind_address;
        assert_eq!(tunnel.forward_spec(), forward);
    }
    let imported = parse("ssh -L '1:[a]]:2' host").unwrap();
    assert_eq!(imported.destination_host, "a]");
    assert_eq!(
        parse_forward("1:a]:2"),
        Err(ParseError::InvalidForward)
    );
}
