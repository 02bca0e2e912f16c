//! Lines of control mode.

use tmux_mcp::tmux::notification::{parse_line, parse_notification, Notification, ReaderMessage};

// --- parse_notification ---

#[test]
fn parse_output_notification() {
    let n = parse_notification("%output %0 \\033]133;A\\007hello");
    assert_eq!(
        n,
        Notification::Output {
            pane_id: "%0".to_string(),
            data: "\\033]133;A\\007hello".to_string(),
        }
    );
}

#[test]
fn parse_output_with_high_pane_id() {
    let n = parse_notification("%output %42 data here");
    assert_eq!(
        n,
        Notification::Output {
            pane_id: "%42".to_string(),
            data: "data here".to_string(),
        }
    );
}

#[test]
fn parse_output_empty_data() {
    // %output with pane_id but no data after the space
    let n = parse_notification("%output %0 ");
    assert_eq!(
        n,
        Notification::Output {
            pane_id: "%0".to_string(),
            data: "".to_string(),
        }
    );
}

#[test]
fn parse_window_close() {
    let n = parse_notification("%window-close @1");
    assert_eq!(n, Notification::WindowClose { window_id: "@1".to_string() });
}

#[test]
fn parse_session_closed() {
    let n = parse_notification("%session-closed $0");
    assert_eq!(n, Notification::SessionClose { session_id: "$0".to_string() });
}

#[test]
fn parse_exit_no_reason() {
    let n = parse_notification("%exit");
    assert_eq!(n, Notification::Exit { reason: None });
}

#[test]
fn parse_exit_with_reason() {
    let n = parse_notification("%exit server-exited");
    assert_eq!(n, Notification::Exit { reason: Some("server-exited".to_string()) });
}

#[test]
fn parse_unknown_notification() {
    let n = parse_notification("%window-add @5");
    assert_eq!(n, Notification::Other { line: "%window-add @5".to_string() });
}

#[test]
fn parse_layout_change() {
    let n = parse_notification("%layout-change @1 abc123");
    assert_eq!(
        n,
        Notification::Other {
            line: "%layout-change @1 abc123".to_string(),
        }
    );
}

// --- parse_line ---

#[test]
fn parse_line_simple_response() {
    let mut block = None;
    assert!(parse_line("%begin 123 0", &mut block).is_none());
    assert!(block.is_some());
    assert!(parse_line("response line 1", &mut block).is_none());
    assert!(parse_line("response line 2", &mut block).is_none());
    let msg = parse_line("%end 123 0", &mut block).unwrap();
    match msg {
        ReaderMessage::Response(r) => {
            assert_eq!(r.output, "response line 1\nresponse line 2");
            assert!(!r.is_error);
        }
        _ => panic!("expected Response"),
    }
    assert!(block.is_none());
}

#[test]
fn parse_line_error_response() {
    let mut block = None;
    parse_line("%begin 123 0", &mut block);
    parse_line("error message", &mut block);
    let msg = parse_line("%error 123 0", &mut block).unwrap();
    match msg {
        ReaderMessage::Response(r) => {
            assert_eq!(r.output, "error message");
            assert!(r.is_error);
        }
        _ => panic!("expected Response"),
    }
}

#[test]
fn parse_line_empty_response() {
    let mut block = None;
    parse_line("%begin 123 0", &mut block);
    let msg = parse_line("%end 123 0", &mut block).unwrap();
    match msg {
        ReaderMessage::Response(r) => {
            assert_eq!(r.output, "");
            assert!(!r.is_error);
        }
        _ => panic!("expected Response"),
    }
}

#[test]
fn parse_line_notification_outside_block() {
    let mut block = None;
    let msg = parse_line("%output %0 hello", &mut block).unwrap();
    match msg {
        ReaderMessage::Notification(Notification::Output { pane_id, data }) => {
            assert_eq!(pane_id, "%0");
            assert_eq!(data, "hello");
        }
        _ => panic!("expected Output notification"),
    }
}

#[test]
fn parse_line_notification_inside_block() {
    // Notifications can arrive inside response blocks — they should
    // be returned immediately, not accumulated into the block.
    let mut block = None;
    parse_line("%begin 123 0", &mut block);
    let msg = parse_line("%output %0 data", &mut block).unwrap();
    assert!(matches!(msg, ReaderMessage::Notification(Notification::Output { .. })));
    // Block is still open
    assert!(block.is_some());
    let msg = parse_line("%end 123 0", &mut block).unwrap();
    assert!(matches!(msg, ReaderMessage::Response(_)));
}

#[test]
fn parse_line_orphan_end() {
    // %end without matching %begin should be ignored
    let mut block = None;
    assert!(parse_line("%end 123 0", &mut block).is_none());
}

#[test]
fn parse_line_unknown_outside_block() {
    let mut block = None;
    let msg = parse_line("some random line", &mut block).unwrap();
    match msg {
        ReaderMessage::Notification(Notification::Other { line }) => {
            assert_eq!(line, "some random line");
        }
        _ => panic!("expected Other notification"),
    }
}

#[test]
fn parse_line_exit_notification() {
    let mut block = None;
    let msg = parse_line("%exit", &mut block).unwrap();
    assert!(matches!(msg, ReaderMessage::Notification(Notification::Exit { reason: None })));
}

#[test]
fn parse_line_window_close_inside_block() {
    let mut block = None;
    parse_line("%begin 1 0", &mut block);
    let msg = parse_line("%window-close @3", &mut block).unwrap();
    assert!(matches!(
        msg,
        ReaderMessage::Notification(Notification::WindowClose { .. })
    ));
    assert!(block.is_some()); // block still open
}

#[test]
fn session_closed_inside_block() {
    let mut block = None;
    parse_line("%begin 1 0", &mut block);
    parse_line("one", &mut block);
    let msg = parse_line("%session-closed $0", &mut block).unwrap();
    match msg {
        ReaderMessage::Notification(Notification::SessionClose { session_id }) => {
            assert_eq!(session_id, "$0");
        }
        other => panic!("unexpected {:?}", other),
    }
    parse_line("two", &mut block);
    match parse_line("%end 1 0", &mut block).unwrap() {
        ReaderMessage::Response(r) => {
            assert_eq!(r.output, "one\ntwo");
            assert!(!r.is_error);
        }
        other => panic!("unexpected {:?}", other),
    }
    assert!(block.is_none());
}
