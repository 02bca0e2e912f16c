//! Commands to tmux, and the way of their answers.

use tmux_mcp::tmux::connection::{
    capture_pane, command_result, disable_pane_output, enable_pane_output, list_panes, query_pane_pid,
    raw_keys_command, read_line, send_command, send_keys, session_id_in, session_id_of,
    signed_string, tmux_answer, Delivery, Error, ResponseReader,
};
use tmux_mcp::tmux::notification::{layout_change, CommandResponse, Notification};

#[test]
fn keys_on_one_line() {
    assert_eq!(send_keys("%1", "ls -la"), vec!["send-keys -t %1 'ls -la'"]);
}

#[test]
fn keys_on_several_lines() {
    assert_eq!(
        send_keys("%1", "a\n\nb"),
        vec![
            "send-keys -t %1 'a'",
            "send-keys -t %1 C-j",
            "send-keys -t %1 C-j",
            "send-keys -t %1 'b'",
        ]
    );
}

#[test]
fn no_keys_no_command() {
    assert!(send_keys("%1", "").is_empty());
}

#[test]
fn keys_with_a_quote() {
    assert_eq!(send_keys("%1", "it's"), vec!["send-keys -t %1 'it'\\''s'"]);
}

#[test]
fn command_ends_with_enter() {
    assert_eq!(send_command("%2", "pwd"), vec!["send-keys -t %2 'pwd'", "send-keys -t %2 Enter"]);
}

#[test]
fn raw_keys_are_not_quoted() {
    assert_eq!(raw_keys_command("%2", "C-c"), "send-keys -t %2 C-c");
}

#[test]
fn listing_of_a_session() {
    let session = list_panes("$0", true);
    assert!(session.starts_with("list-panes -s -t $0 -F \"#{window_id}\t#{pane_id}\t"));
    assert!(session.ends_with("\t#{pane_width}\t#{pane_height}\""));
    assert!(list_panes("@1", false).starts_with("list-panes  -t @1 -F "));
}

#[test]
fn capture_with_history() {
    assert_eq!(capture_pane("%3", 100), "capture-pane -J -p -t %3 -S -100");
    assert_eq!(capture_pane("%3", -5), "capture-pane -J -p -t %3 -S --5");
}

#[test]
fn output_on_and_off() {
    assert_eq!(enable_pane_output("%3"), "refresh-client -A '%3:on'");
    assert_eq!(disable_pane_output("%3"), "refresh-client -A '%3:off'");
    assert_eq!(query_pane_pid("%3"), "display-message -p -t %3 '#{pane_pid}'");
}

#[test]
fn answers_are_trimmed() {
    assert_eq!(tmux_answer(b"%0\n"), "%0");
    assert_eq!(tmux_answer(b" \xff \n"), "\u{fffd}");
}

#[test]
fn session_in_the_variable() {
    assert_eq!(session_id_in("/tmp/tmux-1000/default,12345,$0").as_deref(), Some("$0"));
    assert_eq!(session_id_in("/tmp/tmux-1000/default,12345,0"), None);
    assert_eq!(session_id_in("$4").as_deref(), Some("$4"));
}

#[test]
fn session_with_a_dollar() {
    assert_eq!(session_id_of("$3"), "$3");
    assert_eq!(session_id_of("3"), "$3");
}

#[test]
fn numbers_with_a_sign() {
    assert_eq!(signed_string(0), "0");
    assert_eq!(signed_string(-32601), "-32601");
    assert_eq!(signed_string(i64::MIN), "-9223372036854775808");
    assert_eq!(signed_string(i64::MAX), "9223372036854775807");
}

#[test]
fn response_is_a_result() {
    let ok = CommandResponse { output: "x".to_string(), is_error: false };
    assert_eq!(command_result(ok), Ok("x".to_string()));
    let err = CommandResponse { output: "bad".to_string(), is_error: true };
    assert_eq!(command_result(err), Err(Error::CommandFailed { message: "bad".to_string() }));
}

#[test]
fn errors_have_a_text() {
    assert_eq!(Error::ConnectionClosed.describe(), "Tmux connection closed");
    assert_eq!(Error::Spawn { reason: "no".to_string() }.describe(), "Failed to spawn tmux: no");
    assert_eq!(
        Error::Write { reason: "no".to_string() }.describe(),
        "Failed to write to tmux stdin: no"
    );
    assert_eq!(
        Error::CommandFailed { message: "no".to_string() }.describe(),
        "Tmux command failed: no"
    );
}

#[test]
fn line_endings_are_taken_off() {
    assert_eq!(read_line(b"abc\r\n"), "abc");
    assert_eq!(read_line(b"abc\n\n"), "abc");
    assert_eq!(read_line(b"abc\n\r"), "abc\n");
    assert_eq!(read_line(b"a\xffb\n"), "a\u{fffd}b");
}

#[test]
fn commands_are_answered_in_order() {
    let mut reader = ResponseReader::new();
    reader.register(7);
    reader.register(8);
    assert!(matches!(reader.line(b"%begin 1 1 0\n"), Delivery::Wait));
    assert!(matches!(reader.line(b"one\n"), Delivery::Wait));
    match reader.line(b"%end 1 1 0\n") {
        Delivery::Answer { id, response } => {
            assert_eq!(id, 7);
            assert_eq!(response.output, "one");
            assert!(!response.is_error);
        }
        other => panic!("unexpected {:?}", other),
    }
    reader.line(b"%begin 2 2 0\n");
    match reader.line(b"%output %1 hi\n") {
        Delivery::Notify { notification } => assert_eq!(
            notification,
            Notification::Output { pane_id: "%1".to_string(), data: "hi".to_string() }
        ),
        other => panic!("unexpected {:?}", other),
    }
    match reader.line(b"%error 2 2 0\n") {
        Delivery::Answer { id, response } => {
            assert_eq!(id, 8);
            assert!(response.is_error);
        }
        other => panic!("unexpected {:?}", other),
    }
}

#[test]
fn response_without_a_command() {
    let mut reader = ResponseReader::new();
    reader.line(b"%begin 1 1 0\n");
    assert!(matches!(reader.line(b"%end 1 1 0\n"), Delivery::Unasked { .. }));
}

#[test]
fn layout_changes() {
    assert_eq!(
        layout_change("%layout-change @1 aaaa,80x24,0,0,0 aaaa,80x24,0,0,0 *"),
        Some(("@1".to_string(), "aaaa,80x24,0,0,0".to_string()))
    );
    assert_eq!(
        layout_change("%layout-change @1 aaaa,80x24,0,0,0"),
        Some(("@1".to_string(), "aaaa,80x24,0,0,0".to_string()))
    );
    assert_eq!(layout_change("%layout-change @1"), None);
    assert_eq!(layout_change("%window-add @1 x"), None);
}
