//! The headless terminal.

use tmux_mcp::pane::osc::OscEvent;
use tmux_mcp::pane::osc133::Osc133Phase;
use tmux_mcp::pane::processor::PaneProcessor;

#[test]
fn empty_processor() {
    let p = PaneProcessor::new(24, 80);
    assert_eq!(p.screen_lines(), 24);
    assert_eq!(p.columns(), 80);
    assert_eq!(p.cursor_position(), (0, 0));
}

#[test]
fn simple_text() {
    let mut p = PaneProcessor::new(24, 80);
    p.process_chunk(b"hello world");
    assert_eq!(p.screen_line_text(0), "hello world");
    assert_eq!(p.cursor_position(), (0, 11));
}

#[test]
fn text_with_newline() {
    let mut p = PaneProcessor::new(24, 80);
    p.process_chunk(b"line1\r\nline2");
    assert_eq!(p.screen_line_text(0), "line1");
    assert_eq!(p.screen_line_text(1), "line2");
}

#[test]
fn backspace_editing() {
    let mut p = PaneProcessor::new(24, 80);
    // Type "abcd", backspace twice, type "ef"
    p.process_chunk(b"abcd\x08\x08ef");
    assert_eq!(p.screen_line_text(0), "abef");
}

#[test]
fn cursor_movement_editing() {
    let mut p = PaneProcessor::new(24, 80);
    // Type "hello", move cursor left 3, type "X"
    p.process_chunk(b"hello\x1b[3DX");
    assert_eq!(p.screen_line_text(0), "heXlo");
}

#[test]
fn ansi_colors_dont_affect_text() {
    let mut p = PaneProcessor::new(24, 80);
    p.process_chunk(b"\x1b[31mred\x1b[0m normal");
    assert_eq!(p.screen_line_text(0), "red normal");
}

#[test]
fn osc133_events_extracted() {
    let mut p = PaneProcessor::new(24, 80);
    let events = p.process_chunk(b"\x1b]133;A\x07$ \x1b]133;B\x07");
    assert_eq!(events.len(), 2);
    assert_eq!(events[0].event, OscEvent::Osc133 { marker: b'A', param: None });
    assert_eq!(events[1].event, OscEvent::Osc133 { marker: b'B', param: None });
}

#[test]
fn osc133_c_captures_command_text() {
    let mut p = PaneProcessor::new(24, 80);
    // Simulate: prompt, user types "ls -la", then C marker
    p.process_chunk(b"\x1b]133;A\x07$ \x1b]133;B\x07");
    let events = p.process_chunk(b"ls -la\x1b]133;C\x07");
    // At the moment of C, the screen should show "$ ls -la"
    assert_eq!(p.screen_line_text(0), "$ ls -la");
    assert_eq!(events.len(), 1);
    assert_eq!(events[0].event, OscEvent::Osc133 { marker: b'C', param: None });
}

#[test]
fn osc133_c_with_readline_editing() {
    let mut p = PaneProcessor::new(24, 80);
    // Prompt
    p.process_chunk(b"\x1b]133;A\x07$ \x1b]133;B\x07");
    // User types "shwo", backspaces twice, types "ow" → "show"
    // Then C marker
    let events = p.process_chunk(b"shwo\x08\x08ow\x1b]133;C\x07");
    // Screen should show "$ show" at the moment of C
    assert_eq!(p.screen_line_text(0), "$ show");
    assert_eq!(events.len(), 1);
}

#[test]
fn osc7_extracted() {
    let mut p = PaneProcessor::new(24, 80);
    let events = p.process_chunk(b"\x1b]7;file://myhost/home/user\x07");
    assert_eq!(events.len(), 1);
    assert_eq!(
        events[0].event,
        OscEvent::Osc7 { uri: "file://myhost/home/user".to_string() }
    );
}

#[test]
fn non_intercepted_osc_passes_through() {
    let mut p = PaneProcessor::new(24, 80);
    // OSC 0 (window title) should pass through to alacritty, not be intercepted
    let events = p.process_chunk(b"\x1b]0;My Title\x07hello");
    assert!(events.is_empty());
    assert_eq!(p.screen_line_text(0), "hello");
}

#[test]
fn mixed_text_and_osc() {
    let mut p = PaneProcessor::new(24, 80);
    let events = p.process_chunk(b"before\x1b]133;C\x07after\r\nline2");
    assert_eq!(events.len(), 1);
    // "before" was fed to terminal before C, "after" after
    assert_eq!(p.screen_line_text(0), "beforeafter");
    assert_eq!(p.screen_line_text(1), "line2");
}

#[test]
fn full_command_cycle() {
    let mut p = PaneProcessor::new(24, 80);

    // D;0 from previous command + A + OSC7 + prompt text + B
    let e1 = p.process_chunk(
        b"\x1b]133;D;0\x1b\\\x1b]133;A\x1b\\\x1b]7;file://localhost/home/user\x1b\\$ \x1b]133;B\x1b\\"
    );
    assert_eq!(e1.len(), 4); // D, A, 7, B

    // User types command + C + E
    let e2 = p.process_chunk(b"echo hello\x1b]133;C\x1b\\\x1b]133;E;echo hello\x1b\\");
    assert_eq!(e2.len(), 2); // C, E
    assert_eq!(p.screen_line_text(0), "$ echo hello");

    // Command output + D
    let e3 = p.process_chunk(b"\r\nhello\r\n\x1b]133;D;0\x1b\\");
    assert_eq!(e3.len(), 1); // D
    assert_eq!(p.screen_line_text(1), "hello");
}

#[test]
fn cursor_line_and_screen() {
    let mut p = PaneProcessor::new(3, 20);
    p.process_chunk(b"one\r\ntwo");
    assert_eq!(p.cursor_line_text(), "two");
    assert_eq!(p.screen_text(), vec!["one", "two", ""]);
    assert_eq!(p.screen_line_text(9), "");
}

#[test]
fn resize_keeps_text() {
    let mut p = PaneProcessor::new(3, 20);
    p.process_chunk(b"one");
    p.resize(5, 40);
    assert_eq!((p.screen_lines(), p.columns()), (5, 40));
    assert_eq!(p.screen_line_text(0), "one");
}

#[test]
fn command_cycle_is_followed() {
    let mut p = PaneProcessor::new(5, 40);
    p.state_mut().set_clock(9);
    p.process_chunk(b"\x1b]133;A\x07$ \x1b]133;B\x07");
    assert_eq!(*p.osc133_phase(), Osc133Phase::Input);
    assert_eq!(p.state().input_start, Some((0, 2)));
    assert_eq!((p.state().last_data, p.state().last_osc133_marker), (Some(9), Some(9)));
    p.process_chunk(b"ls\x1b]133;C\x07a\r\n\x1b]133;D;0\x07");
    assert_eq!(p.state().completion_seq, 1);
    p.process_chunk(b"\x1b]7;file://box/w\x07\x1b]133;A\x07\x1b]133;B\x07");
    assert_eq!(p.state().commands[0].command, "ls");
    assert_eq!(p.state().commands[0].output, "a\r\n");
    assert_eq!(p.state().cwd.as_deref(), Some("/w"));
}

#[test]
fn synchronized_update_is_shown_when_it_ends() {
    let mut p = PaneProcessor::new(2, 20);
    p.process_chunk(b"\x1b[?2026hhello");
    assert_eq!(p.screen_line_text(0), "");
    p.process_chunk(b"\x1b[?2026l");
    assert_eq!(p.screen_line_text(0), "hello");
}
