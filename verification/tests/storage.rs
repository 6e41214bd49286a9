use relaybar::storage::default_storage_path;

fn path(config_home: Option<&str>, home: Option<&str>) -> String {
    let bytes = |text: &str| text.as_bytes().to_vec();
    String::from_utf8(default_storage_path(config_home.map(bytes), home.map(bytes))).unwrap()
}

#[test]
fn prefers_the_configuration_directory() {
    assert_eq!(path(Some("/etc/x"), Some("/home/me")), "/etc/x/relaybar/tunnels.json");
    assert_eq!(path(None, Some("/home/me")), "/home/me/.config/relaybar/tunnels.json");
    assert_eq!(path(None, None), "relaybar-tunnels.json");
}

#[test]
fn joins_paths_as_std_does() {
    for directory in ["", "/", "a", "a/", "a//", "/home/ü", "."] {
        assert_eq!(
            path(Some(directory), None),
            std::path::Path::new(directory)
                .join("relaybar/tunnels.json")
                .to_str()
                .unwrap()
        );
        assert_eq!(
            path(None, Some(directory)),
            std::path::Path::new(directory)
                .join(".config/relaybar/tunnels.json")
                .to_str()
                .unwrap()
        );
    }
}

#[test]
fn keeps_bytes_that_are_not_utf8() {
    assert_eq!(
        default_storage_path(Some(vec![0x2f, 0xff]), None),
        b"/\xff/relaybar/tunnels.json"
    );
}
