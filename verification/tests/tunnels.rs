use relaybar::model::{
    are_additional_arguments_safe, attached_option, is_allowed_flag, is_attached_option_safe,
    is_option_with_value, is_safe_openssh_option, is_valid_host_target, Tunnel, TunnelPhase,
};

fn tunnel(bind_address: Option<&str>) -> Tunnel {
    let mut tunnel = Tunnel::new("Web".into(), 8080, "::1".into(), 3000, "example.com".into());
    tunnel.bind_address = bind_address.map(str::to_owned);
    tunnel
}

#[test]
fn formats_endpoints_and_browser_urls() {
    assert_eq!(tunnel(None).forward_spec(), "8080:[::1]:3000");
    assert_eq!(tunnel(None).browser_url(), "http://localhost:8080/");
    assert_eq!(
        tunnel(Some("0.0.0.0")).browser_url(),
        "http://localhost:8080/"
    );
    assert_eq!(tunnel(Some("[::1]")).browser_url(), "http://[::1]:8080/");
}

#[test]
fn rejects_unsafe_arguments() {
    assert!(!is_valid_host_target("-oProxyCommand=whoami"));
    assert!(!are_additional_arguments_safe(&[
        "-o".into(),
        "LocalCommand=whoami".into()
    ]));
    assert!(are_additional_arguments_safe(&[
        "-p".into(),
        "2222".into(),
        "-oIdentitiesOnly=yes".into(),
    ]));
}

#[test]
fn new_tunnels_have_fresh_random_ids() {
    let a = tunnel(None);
    let b = tunnel(None);
    assert_ne!(a.id, b.id);
    for id in [a.id, b.id] {
        let id = uuid::Uuid::from_u128(id);
        assert_eq!(id.get_version_num(), 4);
        assert_eq!(id.get_variant(), uuid::Variant::RFC4122);
    }
    assert_eq!(a.bind_address, None);
    assert!(a.additional_arguments.is_empty());
}

#[test]
fn copies_are_equal() {
    let mut web = tunnel(Some("*"));
    web.additional_arguments = vec!["-v".into(), "-p22".into()];
    assert_eq!(web.clone(), web);
    let phase = TunnelPhase::Retrying {
        attempt: 1,
        max_attempts: 10,
        delay_seconds: 1,
        message: "gone".into(),
    };
    assert_eq!(phase.clone(), phase);
    assert_eq!(TunnelPhase::Failed("x".into()).clone(), TunnelPhase::Failed("x".into()));
}

#[test]
fn names_tunnels() {
    let mut web = tunnel(None);
    web.name = "  Web \n".into();
    assert_eq!(web.display_name(), "Web");
    web.name = " \t".into();
    assert_eq!(web.display_name(), "::1:3000");
}

#[test]
fn shows_endpoints() {
    assert_eq!(tunnel(None).local_endpoint(), "localhost:8080");
    assert_eq!(tunnel(Some("")).local_endpoint(), "localhost:8080");
    assert_eq!(tunnel(Some("0.0.0.0")).local_endpoint(), "0.0.0.0:8080");
    assert_eq!(tunnel(None).destination_endpoint(), "::1:3000");
}

#[test]
fn writes_forwards() {
    assert_eq!(tunnel(Some("*")).forward_spec(), "*:8080:[::1]:3000");
    assert_eq!(tunnel(Some("")).forward_spec(), ":8080:[::1]:3000");
    let mut web = tunnel(None);
    web.destination_host = "[::1]".into();
    assert_eq!(web.forward_spec(), "8080:[::1]:3000");
    web.destination_host = "db".into();
    assert_eq!(web.forward_spec(), "8080:db:3000");
    web.destination_host = String::new();
    assert_eq!(web.forward_spec(), "8080::3000");
}

#[test]
fn picks_the_browsers_host() {
    for (bind, url) in [
        ("*", "http://localhost:8080/"),
        ("::", "http://localhost:8080/"),
        ("[::]", "http://localhost:8080/"),
        ("  [*] ", "http://localhost:8080/"),
        ("[]", "http://localhost:8080/"),
        ("", "http://localhost:8080/"),
        ("[", "http://[:8080/"),
        ("192.168.0.1", "http://192.168.0.1:8080/"),
        (" fe80::1 ", "http://[fe80::1]:8080/"),
        ("Example", "http://Example:8080/"),
    ] {
        assert_eq!(tunnel(Some(bind)).browser_url(), url, "{bind}");
    }
}

#[test]
fn knows_loopback_addresses() {
    assert!(!tunnel(None).exposes_beyond_loopback());
    for bind in ["localhost", "LOCALHOST", "127.0.0.1", "::1", "[::1]", "[[::1"] {
        assert!(!tunnel(Some(bind)).exposes_beyond_loopback(), "{bind}");
    }
    for bind in ["0.0.0.0", "*", "", " localhost", "127.0.0.2", "::"] {
        assert!(tunnel(Some(bind)).exposes_beyond_loopback(), "{bind}");
    }
}

#[test]
fn builds_the_ssh_command() {
    let mut web = tunnel(None);
    web.additional_arguments = vec!["-p".into(), "2222".into()];
    assert!(web.is_safe_to_run());
    assert_eq!(
        web.ssh_arguments(),
        [
            "-N", "-T", "-o", "BatchMode=yes", "-o", "ConnectTimeout=10", "-o",
            "ExitOnForwardFailure=yes", "-o", "ServerAliveInterval=30", "-o",
            "ServerAliveCountMax=3", "-L", "8080:[::1]:3000", "-p", "2222", "example.com",
        ]
    );
    assert!(!web.ssh_arguments().last().unwrap().starts_with('-'));
}

#[test]
fn refuses_unsafe_tunnels() {
    let mut web = tunnel(None);
    web.ssh_host = "-oProxyCommand=x".into();
    assert!(!web.is_safe_to_run());
    let mut web = tunnel(None);
    web.destination_host = "a b".into();
    assert!(!web.is_safe_to_run());
    let mut web = tunnel(None);
    web.additional_arguments = vec!["-F".into()];
    assert!(!web.is_safe_to_run());
}

#[test]
fn knows_the_lists_of_arguments() {
    for flag in ["-4", "-6", "-a", "-C", "-k", "-q", "-v", "-vv", "-vvv"] {
        assert!(is_allowed_flag(flag));
        assert!(!is_option_with_value(flag));
    }
    for option in ["-J", "-i", "-l", "-o", "-p"] {
        assert!(is_option_with_value(option));
        assert!(!is_allowed_flag(option));
        assert_eq!(attached_option(option), None);
        assert_eq!(
            attached_option(&format!("{option}x")),
            Some((option.into(), "x".into()))
        );
    }
    assert!(!is_allowed_flag("-A"));
    assert!(!is_allowed_flag("-vvvv"));
    assert_eq!(attached_option("-Fx"), None);
    assert_eq!(attached_option("xo"), None);
    assert!(is_attached_option_safe("-p22"));
    assert!(is_attached_option_safe("-oPort 22"));
    assert!(!is_attached_option_safe("-oProxyCommand=x"));
    assert!(!is_attached_option_safe("-p"));
}

#[test]
fn knows_the_safe_openssh_options() {
    for option in [
        "AddressFamily", "BatchMode", "Compression", "ConnectionAttempts", "ConnectTimeout",
        "HostKeyAlgorithms", "IdentitiesOnly", "IPQoS", "KexAlgorithms", "LogLevel", "MACs",
        "PasswordAuthentication", "Port", "PreferredAuthentications", "ProxyJump",
        "PubkeyAuthentication", "ServerAliveCountMax", "ServerAliveInterval",
        "StrictHostKeyChecking", "TCPKeepAlive", "User", "VerifyHostKeyDNS",
    ] {
        for value in [
            format!("{option}=x"),
            format!("  {option} x"),
            format!("{option}\tx"),
            option.to_string(),
            option.to_uppercase(),
        ] {
            assert!(is_safe_openssh_option(&value), "{value}");
        }
    }
    for value in ["", "=x", " ", "ProxyCommand=x", "Port:22", "Portx", "LocalCommand x", "Port\u{a0}=1"] {
        assert!(!is_safe_openssh_option(value), "{value}");
    }
}

#[test]
fn checks_every_added_argument() {
    let safe = |arguments: &[&str]| {
        let arguments: Vec<String> = arguments.iter().map(|a| a.to_string()).collect();
        are_additional_arguments_safe(&arguments)
    };
    assert!(safe(&[]));
    assert!(safe(&["-v", "-J", "-F", "-o", "Port=1", "-iKEY"]));
    assert!(!safe(&["-v", "-J"]));
    assert!(!safe(&["-v", "host"]));
    assert!(!safe(&["-o", "Port=1", "-oPermitLocalCommand=yes"]));
    assert!(!safe(&[""]));
}

#[test]
fn knows_active_phases() {
    assert_eq!(TunnelPhase::default(), TunnelPhase::Stopped);
    assert!(TunnelPhase::Starting.is_active());
    assert!(TunnelPhase::Running.is_active());
    assert!(TunnelPhase::Retrying {
        attempt: 1,
        max_attempts: 10,
        delay_seconds: 1,
        message: String::new(),
    }
    .is_active());
    assert!(!TunnelPhase::Stopped.is_active());
    assert!(!TunnelPhase::Failed("x".into()).is_active());
}
