use nb_client::terminal::{
    decode_frame, done_marker, read_message, stdin_message, stdin_text, terminal_name, terminal_step,
    TerminalError, TerminalStep,
};

fn frame(items: &[Option<&str>]) -> Vec<Option<String>> {
    items.iter().map(|i| i.map(|s| s.to_string())).collect()
}

#[test]
fn names_and_markers() {
    assert_eq!(terminal_name("0f3a"), "codex0f3a");
    assert_eq!(done_marker("0f3a"), "__NB_DONE_0f3a__");
}

#[test]
fn command_line_prints_marker_and_status() {
    assert_eq!(
        stdin_text("ls -l", "__NB_DONE_1__"),
        "ls -l; printf '\\n__NB_DONE_1__%s\\n' \"$?\"\r"
    );
}

#[test]
fn stdin_message_is_a_json_pair() {
    let m = stdin_message("echo \"hi\"", "M").unwrap();
    assert_eq!(m, "[\"stdin\",\"echo \\\"hi\\\"; printf '\\\\nM%s\\\\n' \\\"$?\\\"\\r\"]");
    let decoded: Vec<String> = serde_json::from_str(&m).unwrap();
    assert_eq!(decoded, vec!["stdin".to_string(), stdin_text("echo \"hi\"", "M")]);
}

#[test]
fn stdin_message_escapes_control_characters() {
    let m = stdin_message("a\u{1}b\tc\\", "M").unwrap();
    assert!(m.starts_with("[\"stdin\",\"a\\u0001b\\tc\\\\; printf"));
}

#[test]
fn steps_skip_messages_that_are_not_pairs() {
    assert!(matches!(terminal_step(&frame(&[Some("stdout")]), "M"), TerminalStep::Skip));
    assert!(matches!(terminal_step(&frame(&[Some("a"), Some("b"), Some("c")]), "M"), TerminalStep::Skip));
}

#[test]
fn steps_print_output_without_marker() {
    match terminal_step(&frame(&[Some("stdout"), Some("hello\r\n")]), "M1") {
        TerminalStep::Print(s) => assert_eq!(s, "hello\r\n"),
        _ => panic!("expected output"),
    }
    match terminal_step(&frame(&[Some("setup"), None]), "M1") {
        TerminalStep::Print(s) => assert_eq!(s, ""),
        _ => panic!("a non-string output prints nothing"),
    }
}

#[test]
fn steps_finish_at_last_marker() {
    match terminal_step(&frame(&[Some("stdout"), Some("out\r\nM1 echo M1 0\r\n")]), "M1") {
        TerminalStep::Finish(s) => assert_eq!(s, "out\r\nM1 echo "),
        _ => panic!("expected the end"),
    }
    match terminal_step(&frame(&[Some("stdout"), Some("é€M1")]), "M1") {
        TerminalStep::Finish(s) => assert_eq!(s, "é€"),
        _ => panic!("expected the end"),
    }
}

#[test]
fn stdin_message_uses_lowercase_hex_escapes() {
    let m = stdin_message("\u{1f}\u{7f}é/", "M").unwrap();
    assert!(m.starts_with("[\"stdin\",\"\\u001f\u{7f}é/; printf"));
}

#[test]
fn messages_are_decoded_before_they_are_read() {
    assert_eq!(
        decode_frame("[\"stdout\", 3, \"x\\ny\"]"),
        Some(vec![Some("stdout".to_string()), None, Some("x\ny".to_string())])
    );
    assert_eq!(decode_frame("{\"a\": 1}"), None);
    assert_eq!(decode_frame("not json"), None);
    match read_message("[\"stdout\", \"ok\\r\\nM1 0\"]", "M1") {
        Ok(TerminalStep::Finish(s)) => assert_eq!(s, "ok\r\n"),
        _ => panic!("expected the end"),
    }
    match read_message("[\"stdout\", \"partial\"]", "M1") {
        Ok(TerminalStep::Print(s)) => assert_eq!(s, "partial"),
        _ => panic!("expected output"),
    }
    assert!(matches!(read_message("[\"setup\"]", "M1"), Ok(TerminalStep::Skip)));
    assert!(matches!(read_message("[\"stdout\", null]", "M1"), Ok(TerminalStep::Print(ref s)) if s.is_empty()));
    assert!(matches!(read_message("oops", "M1"), Err(TerminalError::InvalidMessage)));
}
