use relaybar::process::{
    after_poll, after_signal, clip_stderr, describe_exit, stderr_message, summarize_output,
    ChildState, StopSignal, WatchStep, STDERR_LIMIT,
};

#[test]
fn summarizes_the_last_two_lines() {
    assert_eq!(summarize_output(""), None);
    assert_eq!(summarize_output(" \n\t\n"), None);
    assert_eq!(summarize_output("one"), Some("one".into()));
    assert_eq!(summarize_output("one\ntwo\nthree\n"), Some("two three".into()));
    assert_eq!(summarize_output("one\r\ntwo\r\n"), Some("one two".into()));
    assert_eq!(summarize_output("one\n\n"), Some("one".into()));
    assert_eq!(summarize_output("one\n\n\n"), None);
    assert_eq!(summarize_output("a\rb\nc\r"), Some("a\rb c".into()));
    assert_eq!(summarize_output("a\r\r\nb"), Some("a\r b".into()));
}

#[test]
fn lines_agree_with_std() {
    for output in ["", "\n", "a", "a\n", "a\nb", "\r\n", "a\r\n\r\nb\r", "\n\na\n\n", "a\r", "\r"] {
        let lines: Vec<&str> = output.lines().collect();
        let start: usize = lines.len().saturating_sub(2);
        let joined = lines[start..].join(" ");
        let expected = joined.trim();
        assert_eq!(
            summarize_output(output).unwrap_or_default(),
            expected,
            "{output:?}"
        );
    }
}

#[test]
fn reads_error_output_that_is_not_utf8() {
    assert_eq!(stderr_message(b""), None);
    assert_eq!(stderr_message("Zeit\u{fc}berschreitung\n".as_bytes()), Some("Zeitüberschreitung".into()));
    assert_eq!(
        stderr_message(b"bad \xff\xfe byte\n"),
        Some("bad \u{fffd}\u{fffd} byte".into())
    );
    assert_eq!(stderr_message(b"\xe2\x82"), Some("\u{fffd}".into()));
}

#[test]
fn describes_exits() {
    assert_eq!(describe_exit(Some("refused".into()), Some(255)), "refused");
    assert_eq!(describe_exit(None, None), "SSH process terminated.");
    assert_eq!(describe_exit(None, Some(0)), "SSH connection closed.");
    assert_eq!(describe_exit(None, Some(255)), "SSH exited with status 255.");
    assert_eq!(describe_exit(None, Some(-1)), "SSH exited with status -1.");
}

#[test]
fn keeps_the_end_of_the_error_output() {
    let bytes = |len: usize| -> Vec<u8> { (0..len).map(|i| (i % 251) as u8).collect() };
    for len in [0, 1, STDERR_LIMIT - 1, STDERR_LIMIT] {
        assert_eq!(clip_stderr(bytes(len)), bytes(len));
    }
    for len in [STDERR_LIMIT + 1, 2 * STDERR_LIMIT + 7] {
        assert_eq!(clip_stderr(bytes(len)), bytes(len)[len - 16_384..]);
    }
}

#[test]
fn watches_a_process() {
    assert_eq!(after_signal(StopSignal::Absent), WatchStep::Poll);
    assert_eq!(after_signal(StopSignal::Requested), WatchStep::Kill);
    assert_eq!(after_signal(StopSignal::Abandoned), WatchStep::Kill);
    assert_eq!(after_poll(ChildState::Running), WatchStep::Sleep);
    assert_eq!(after_poll(ChildState::Exited), WatchStep::Collect);
    assert_eq!(after_poll(ChildState::Unknown), WatchStep::Collect);
}
