//! The search for OSC sequences.

use tmux_mcp::pane::osc::{find_next_osc, find_next_osc_from, OscEvent};

// --- Helper ---

fn osc133(marker: u8, param: Option<&str>) -> OscEvent {
    OscEvent::Osc133 { marker, param: param.map(|s| s.to_string()) }
}

fn osc7(uri: &str) -> OscEvent {
    OscEvent::Osc7 { uri: uri.to_string() }
}

fn osc9(text: &str) -> OscEvent {
    OscEvent::Osc9 { text: text.to_string() }
}

// --- OSC 133 with BEL terminator ---

#[test]
fn osc133_a_bel() {
    let bytes = b"\x1b]133;A\x07";
    let m = find_next_osc(bytes).unwrap();
    assert_eq!(m.start, 0);
    assert_eq!(m.end, bytes.len());
    assert_eq!(m.event, osc133(b'A', None));
}

#[test]
fn osc133_b_bel() {
    let m = find_next_osc(b"\x1b]133;B\x07").unwrap();
    assert_eq!(m.event, osc133(b'B', None));
}

#[test]
fn osc133_c_bel() {
    let m = find_next_osc(b"\x1b]133;C\x07").unwrap();
    assert_eq!(m.event, osc133(b'C', None));
}

#[test]
fn osc133_d_with_exit_code_bel() {
    let m = find_next_osc(b"\x1b]133;D;0\x07").unwrap();
    assert_eq!(m.event, osc133(b'D', Some("0")));
}

#[test]
fn osc133_d_with_nonzero_exit_bel() {
    let m = find_next_osc(b"\x1b]133;D;127\x07").unwrap();
    assert_eq!(m.event, osc133(b'D', Some("127")));
}

#[test]
fn osc133_e_with_command_bel() {
    let m = find_next_osc(b"\x1b]133;E;ls -la\x07").unwrap();
    assert_eq!(m.event, osc133(b'E', Some("ls -la")));
}

// --- OSC 133 with ST terminator ---

#[test]
fn osc133_a_st() {
    let bytes = b"\x1b]133;A\x1b\\";
    let m = find_next_osc(bytes).unwrap();
    assert_eq!(m.start, 0);
    assert_eq!(m.end, bytes.len());
    assert_eq!(m.event, osc133(b'A', None));
}

#[test]
fn osc133_d_with_exit_code_st() {
    let m = find_next_osc(b"\x1b]133;D;0\x1b\\").unwrap();
    assert_eq!(m.event, osc133(b'D', Some("0")));
}

#[test]
fn osc133_e_with_command_st() {
    let m = find_next_osc(b"\x1b]133;E;echo hello\x1b\\").unwrap();
    assert_eq!(m.event, osc133(b'E', Some("echo hello")));
}

// --- OSC 7 ---

#[test]
fn osc7_with_hostname() {
    let m = find_next_osc(b"\x1b]7;file://myhost/home/user\x07").unwrap();
    assert_eq!(m.event, osc7("file://myhost/home/user"));
}

#[test]
fn osc7_localhost() {
    let m = find_next_osc(b"\x1b]7;file://localhost/tmp\x1b\\").unwrap();
    assert_eq!(m.event, osc7("file://localhost/tmp"));
}

#[test]
fn osc7_no_hostname() {
    let m = find_next_osc(b"\x1b]7;file:///home/user\x07").unwrap();
    assert_eq!(m.event, osc7("file:///home/user"));
}

// --- OSC 9 ---

#[test]
fn osc9_notification() {
    let m = find_next_osc(b"\x1b]9;Build complete\x07").unwrap();
    assert_eq!(m.event, osc9("Build complete"));
}

// --- Embedded in other content ---

#[test]
fn osc_after_text() {
    let bytes = b"hello world\x1b]133;A\x07more text";
    let m = find_next_osc(bytes).unwrap();
    assert_eq!(m.start, 11);
    assert_eq!(m.end, 19); // ESC ] 1 3 3 ; A BEL = 8 bytes, starts at 11
    assert_eq!(m.event, osc133(b'A', None));
}

#[test]
fn osc_between_text() {
    let bytes = b"before\x1b]133;C\x07after";
    let m = find_next_osc(bytes).unwrap();
    assert_eq!(m.start, 6);
    assert_eq!(m.end, 14); // ESC ] 1 3 3 ; C BEL = 8 bytes
    // Verify the boundaries
    assert_eq!(&bytes[..m.start], b"before");
    assert_eq!(&bytes[m.end..], b"after");
}

#[test]
fn multiple_oscs_finds_first() {
    let bytes = b"\x1b]133;A\x07\x1b]133;B\x07";
    let m = find_next_osc(bytes).unwrap();
    assert_eq!(m.event, osc133(b'A', None));
    assert_eq!(m.end, 8); // ESC ] 1 3 3 ; A BEL = 8 bytes
}

#[test]
fn find_next_osc_from_skips_first() {
    let bytes = b"\x1b]133;A\x07\x1b]133;B\x07";
    let first = find_next_osc(bytes).unwrap();
    let second = find_next_osc_from(bytes, first.end).unwrap();
    assert_eq!(second.event, osc133(b'B', None));
}

// --- Non-intercepted OSCs pass through ---

#[test]
fn non_intercepted_osc_types_ignored() {
    for bytes in [
        &b"\x1b]0;Window Title\x07"[..],       // window title
        &b"\x1b]4;1;rgb:ff/00/00\x07"[..],     // color palette
        &b"\x1b]52;c;SGVsbG8=\x07"[..],        // clipboard
        &b"\x1b]10;rgb:ff/ff/ff\x07"[..],      // foreground color
        &b"\x1b]8;;https://example.com\x07"[..], // hyperlink
    ] {
        assert!(find_next_osc(bytes).is_none(), "should ignore: {:?}", bytes);
    }
}

#[test]
fn non_osc_escapes_skipped() {
    // CSI sequence (not OSC) should be skipped
    let bytes = b"\x1b[31mred\x1b[0m\x1b]133;A\x07";
    let m = find_next_osc(bytes).unwrap();
    assert_eq!(m.event, osc133(b'A', None));
}

// --- Edge cases ---

#[test]
fn empty_input() {
    assert!(find_next_osc(b"").is_none());
}

#[test]
fn no_osc_in_input() {
    assert!(find_next_osc(b"hello world").is_none());
}

#[test]
fn lone_esc() {
    assert!(find_next_osc(b"\x1b").is_none());
}

#[test]
fn esc_bracket_not_osc() {
    assert!(find_next_osc(b"\x1b[31m").is_none());
}

#[test]
fn incomplete_osc_at_end() {
    // OSC started but no terminator — should return None (incomplete)
    assert!(find_next_osc(b"\x1b]133;A").is_none());
}

#[test]
fn incomplete_st_at_end() {
    // ESC at end could be start of ST — should return None (incomplete)
    assert!(find_next_osc(b"\x1b]133;A\x1b").is_none());
}

#[test]
fn osc133_no_marker() {
    // OSC 133 with empty data (no marker letter)
    assert!(find_next_osc(b"\x1b]133;\x07").is_none());
}

#[test]
fn osc133_lowercase_marker_rejected() {
    assert!(find_next_osc(b"\x1b]133;a\x07").is_none());
}

#[test]
fn osc_with_non_utf8_data() {
    // OSC 7 with non-UTF8 data should be skipped (parse_osc_event returns None)
    let bytes = b"\x1b]7;\xff\xfe\x07".to_vec();
    assert!(find_next_osc(&bytes).is_none());
}

// --- Realistic sequences ---

#[test]
fn realistic_prompt_cycle() {
    // D;0 (previous command done) + A (prompt start) + OSC 7 (cwd) + B (input ready)
    let bytes = b"\x1b]133;D;0\x1b\\\x1b]133;A\x1b\\\x1b]7;file://localhost/home/user\x1b\\\x1b]133;B\x1b\\";

    let m1 = find_next_osc(bytes).unwrap();
    assert_eq!(m1.event, osc133(b'D', Some("0")));

    let m2 = find_next_osc_from(bytes, m1.end).unwrap();
    assert_eq!(m2.event, osc133(b'A', None));

    let m3 = find_next_osc_from(bytes, m2.end).unwrap();
    assert_eq!(m3.event, osc7("file://localhost/home/user"));

    let m4 = find_next_osc_from(bytes, m3.end).unwrap();
    assert_eq!(m4.event, osc133(b'B', None));

    assert!(find_next_osc_from(bytes, m4.end).is_none());
}

#[test]
fn mixed_intercepted_and_passthrough() {
    // Window title (pass through) then OSC 133;A (intercept)
    let bytes = b"\x1b]0;bash\x07prompt$ \x1b]133;B\x07";
    let m = find_next_osc(bytes).unwrap();
    // Should skip the OSC 0 and find the OSC 133
    assert_eq!(m.event, osc133(b'B', None));
}

#[test]
fn malformed_sequence_is_skipped() {
    let bytes = b"\x1b]7;\xff\xfe\x07\x1b]133;A\x07";
    let m = find_next_osc(bytes).unwrap();
    assert_eq!((m.start, m.end), (7, 15));
    assert_eq!(m.event, OscEvent::Osc133 { marker: b'A', param: None });
    // A marker that is no uppercase letter, and no data at all
    let bytes = b"\x1b]133;a\x07\x1b]133;\x1b\\x\x1b]9;hi\x07";
    let m = find_next_osc(bytes).unwrap();
    assert_eq!((m.start, m.end), (17, 24));
    assert_eq!(m.event, OscEvent::Osc9 { text: "hi".to_string() });
    // One that is incomplete still ends the scan
    assert!(find_next_osc(b"\x1b]7;\xff\x07\x1b]133;A").is_none());
    assert!(find_next_osc(b"\x1b]7;ab\x1b]133;A\x07").is_none());
}
