use relaybar::model::{is_valid_destination_host, is_valid_host_target};
use relaybar::text::{
    chars_of, copied_texts, decimal_text, has_char, is_one_of, last_index_of, lowered, number_of,
    push_decimal, push_signed_decimal, same_text, text_between, trimmed, without_brackets,
};

#[test]
fn white_space_and_control_characters_are_unicodes() {
    for code in 0u32..=0x10ffff {
        if let Some(c) = char::from_u32(code) {
            let word = format!("a{c}b");
            assert_eq!(
                is_valid_destination_host(&word),
                !c.is_whitespace() && !c.is_control(),
                "{code:x}"
            );
            let padded = format!("{c}x{c}");
            assert_eq!(trimmed(&padded), padded.trim(), "{code:x}");
        }
    }
}

#[test]
fn trims_both_ends_only() {
    assert_eq!(trimmed(" \t a b \r\n"), "a b");
    assert_eq!(trimmed(""), "");
    assert_eq!(trimmed(" \u{a0}\u{3000} "), "");
    assert_eq!(trimmed(&trimmed("  twice ")), "twice");
}

#[test]
fn trims_brackets() {
    assert_eq!(without_brackets("[::1]"), "::1");
    assert_eq!(without_brackets("]][a[b]]["), "a[b");
    assert_eq!(without_brackets("[]"), "");
    assert_eq!(without_brackets("plain"), "plain");
}

#[test]
fn lowers_ascii_only() {
    assert_eq!(lowered("AZ az 09 @[`{ ÄÖ"), "az az 09 @[`{ ÄÖ");
}

#[test]
fn compares_texts() {
    assert!(same_text("", ""));
    assert!(same_text("über", "über"));
    assert!(!same_text("a", "b"));
    assert!(!same_text("a", "aa"));
    assert!(is_one_of("-v", &["-q", "-v"]));
    assert!(!is_one_of("-V", &["-q", "-v"]));
    assert!(!is_one_of("", &[]));
}

#[test]
fn takes_texts_apart() {
    let chars = chars_of("a:ü:c");
    assert_eq!(chars, ['a', ':', 'ü', ':', 'c']);
    assert_eq!(text_between(&chars, 1, 4), ":ü:");
    assert_eq!(text_between(&chars, 2, 2), "");
    assert_eq!(last_index_of(&chars, 5, ':'), Some(3));
    assert_eq!(last_index_of(&chars, 3, ':'), Some(1));
    assert_eq!(last_index_of(&chars, 5, '/'), None);
    assert!(has_char("a:ü", 'ü'));
    assert!(!has_char("a:ü", 'u'));
    assert_eq!(
        copied_texts(&["x".to_string(), String::new()]),
        ["x".to_string(), String::new()]
    );
}

#[test]
fn writes_numbers() {
    assert_eq!(decimal_text(0), "0");
    assert_eq!(decimal_text(10), "10");
    assert_eq!(decimal_text(u64::MAX), "18446744073709551615");
    let mut text = "n = ".to_string();
    push_decimal(&mut text, 1005);
    assert_eq!(text, "n = 1005");
    let mut text = String::new();
    push_signed_decimal(&mut text, -255);
    push_signed_decimal(&mut text, i32::MIN);
    push_signed_decimal(&mut text, 7);
    assert_eq!(text, "-255-21474836487");
}

#[test]
fn reads_numbers() {
    assert_eq!(number_of("0"), Some(0));
    assert_eq!(number_of("0080"), Some(80));
    assert_eq!(number_of("+80"), Some(80));
    assert_eq!(number_of("65535"), Some(65535));
    for text in [
        "", "+", "-1", "-0", "++1", "65536", "99999999999999999999", "8 0", " 80", "8a", "٣",
    ] {
        assert_eq!(number_of(text), None, "{text}");
        assert!(text.parse::<u16>().is_err(), "{text}");
    }
}

#[test]
fn every_port_reads_back() {
    for port in 0u16..=u16::MAX {
        assert_eq!(number_of(&decimal_text(port as u64)), Some(port));
    }
}

#[test]
fn host_validity_ignores_white_space_around() {
    assert!(is_valid_host_target(" user@host\n"));
    assert!(is_valid_host_target(&trimmed(" user@host\n")));
    assert!(is_valid_destination_host("\t::1 "));
    assert!(!is_valid_host_target("  "));
    assert!(!is_valid_host_target(""));
    assert!(!is_valid_host_target("two words"));
    assert!(!is_valid_host_target(" -oProxyCommand=whoami"));
    assert!(is_valid_destination_host("-host"));
    assert!(!is_valid_destination_host("ho\u{7}st"));
}
