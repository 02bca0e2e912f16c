//! The shell-integration state machine.

use tmux_mcp::pane::osc133::{parse_cmdline_url, percent_decode, Osc133Parser, Osc133Phase};
use tmux_mcp::pane::state::{Activity, PaneState};

fn marker(parser: &mut Osc133Parser, m: u8, param: Option<&str>, state: &mut PaneState) {
    parser.handle_marker(m, param, state);
}

/// The command text that is taken from captured text alone.
fn strip_escapes(raw: &str) -> String {
    let mut p = Osc133Parser::new();
    let mut s = PaneState::new();
    p.append_output(raw);
    p.handle_marker(b'C', None, &mut s);
    p.executing_command().unwrap().to_string()
}

// --- Normal flows ---

#[test]
fn full_cycle_with_e_marker() {
    let mut p = Osc133Parser::new();
    let mut s = PaneState::new();

    marker(&mut p, b'A', None, &mut s);
    assert_eq!(*p.phase(), Osc133Phase::Prompt);

    marker(&mut p, b'B', None, &mut s);
    assert_eq!(*p.phase(), Osc133Phase::Input);

    marker(&mut p, b'E', Some("ls -la"), &mut s);
    marker(&mut p, b'C', None, &mut s);
    assert!(matches!(*p.phase(), Osc133Phase::Executing { .. }));

    p.append_output("file1.txt\nfile2.txt\n");

    marker(&mut p, b'D', Some("0"), &mut s);
    assert_eq!(*p.phase(), Osc133Phase::Idle);

    // Command not finalized yet — need B (the latch)
    assert!(s.commands.is_empty());

    marker(&mut p, b'A', None, &mut s);
    marker(&mut p, b'B', None, &mut s);

    // NOW the command is finalized
    assert_eq!(s.commands.len(), 1);
    let cmd = &s.commands[0];
    assert_eq!(cmd.command, "ls -la");
    assert_eq!(cmd.output, "file1.txt\nfile2.txt\n");
    assert_eq!(cmd.exit_code, Some(0));
}

#[test]
fn full_cycle_without_e_uses_capture_fallback() {
    let mut p = Osc133Parser::new();
    let mut s = PaneState::new();

    marker(&mut p, b'A', None, &mut s);
    marker(&mut p, b'B', None, &mut s);

    // Simulate echoed command text in capture (B-to-C content)
    p.append_output("$ echo hello");
    // C marker — no E, so capture is escape-stripped for command text
    marker(&mut p, b'C', None, &mut s);
    if let Osc133Phase::Executing { command } = &*p.phase() {
        assert_eq!(command, "$ echo hello");
    } else {
        panic!("Expected Executing");
    }

    p.append_output("hello\n");
    marker(&mut p, b'D', Some("0"), &mut s);
    marker(&mut p, b'A', None, &mut s);
    marker(&mut p, b'B', None, &mut s);

    assert_eq!(s.commands.len(), 1);
    assert_eq!(s.commands[0].command, "$ echo hello");
    assert_eq!(s.commands[0].output, "hello\n");
}

#[test]
fn c_cmdline_url_param() {
    let mut p = Osc133Parser::new();
    let mut s = PaneState::new();

    marker(&mut p, b'A', None, &mut s);
    marker(&mut p, b'B', None, &mut s);
    // C with cmdline_url parameter (URL-encoded)
    marker(&mut p, b'C', Some("cmdline_url=echo%20hello%20world"), &mut s);

    if let Osc133Phase::Executing { command } = &*p.phase() {
        assert_eq!(command, "echo hello world");
    } else {
        panic!("Expected Executing");
    }
}

#[test]
fn e_overrides_c_cmdline_url() {
    let mut p = Osc133Parser::new();
    let mut s = PaneState::new();

    marker(&mut p, b'A', None, &mut s);
    marker(&mut p, b'B', None, &mut s);
    // E arrives before C — takes priority over cmdline_url
    marker(&mut p, b'E', Some("correct"), &mut s);
    marker(&mut p, b'C', Some("cmdline_url=wrong"), &mut s);

    if let Osc133Phase::Executing { command } = &*p.phase() {
        assert_eq!(command, "correct");
    } else {
        panic!("Expected Executing");
    }
}

#[test]
fn e_before_c() {
    let mut p = Osc133Parser::new();
    let mut s = PaneState::new();

    marker(&mut p, b'A', None, &mut s);
    marker(&mut p, b'B', None, &mut s);
    marker(&mut p, b'E', Some("pwd"), &mut s);
    marker(&mut p, b'C', None, &mut s);

    if let Osc133Phase::Executing { command } = &*p.phase() {
        assert_eq!(command, "pwd");
    } else {
        panic!("Expected Executing");
    }
}

#[test]
fn e_overrides_during_executing() {
    let mut p = Osc133Parser::new();
    let mut s = PaneState::new();

    marker(&mut p, b'A', None, &mut s);
    marker(&mut p, b'B', None, &mut s);
    p.append_output("$ wrong");
    marker(&mut p, b'C', None, &mut s);
    // E arrives after C and overrides the capture-based fallback
    marker(&mut p, b'E', Some("correct"), &mut s);

    if let Osc133Phase::Executing { command } = &*p.phase() {
        assert_eq!(command, "correct");
    } else {
        panic!("Expected Executing");
    }
}

// --- No-output commands ---

#[test]
fn no_output_command_bd_pattern() {
    let mut p = Osc133Parser::new();
    let mut s = PaneState::new();

    marker(&mut p, b'A', None, &mut s);
    marker(&mut p, b'B', None, &mut s);
    marker(&mut p, b'E', Some("cd /tmp"), &mut s);
    // B→D pattern: D without C (cd has no output phase)
    marker(&mut p, b'D', Some("0"), &mut s);
    marker(&mut p, b'A', None, &mut s);
    marker(&mut p, b'B', None, &mut s);

    assert_eq!(s.commands.len(), 1);
    assert_eq!(s.commands[0].command, "cd /tmp");
    assert_eq!(s.commands[0].exit_code, Some(0));
    assert!(s.commands[0].output.is_empty());
}

// --- Output capture without C marker (subshells, etc.) ---

#[test]
fn output_captured_without_c_marker() {
    let mut p = Osc133Parser::new();
    let mut s = PaneState::new();

    marker(&mut p, b'A', None, &mut s);
    marker(&mut p, b'B', None, &mut s);

    // Subshell: no C/E, but output arrives
    p.append_output("sub\n");
    marker(&mut p, b'D', Some("0"), &mut s);
    marker(&mut p, b'A', None, &mut s);
    marker(&mut p, b'B', None, &mut s);

    // Output is captured even without C
    assert_eq!(s.commands.len(), 1);
    assert_eq!(s.commands[0].output, "sub\n");
    assert_eq!(s.commands[0].exit_code, Some(0));
}

#[test]
fn partial_capture_on_mid_join() {
    let mut p = Osc133Parser::new();
    let mut s = PaneState::new();

    // Start monitoring mid-command — some output arrives before D
    p.append_output("partial output\n");
    marker(&mut p, b'D', Some("0"), &mut s);
    marker(&mut p, b'A', None, &mut s);
    marker(&mut p, b'B', None, &mut s);

    // Partial output is captured
    assert_eq!(s.commands.len(), 1);
    assert_eq!(s.commands[0].output, "partial output\n");
}

// --- Recovery: missing markers ---

#[test]
fn missing_d_abandoned_on_a() {
    let mut p = Osc133Parser::new();
    let mut s = PaneState::new();

    marker(&mut p, b'A', None, &mut s);
    marker(&mut p, b'B', None, &mut s);
    p.append_output("$ long-cmd");
    marker(&mut p, b'C', None, &mut s);
    p.append_output("partial output");

    // No D marker — A arrives (Ctrl+C, reset, etc.)
    marker(&mut p, b'A', None, &mut s);

    // The abandoned command is recorded with no exit code
    assert_eq!(s.commands.len(), 1);
    assert_eq!(s.commands[0].command, "$ long-cmd");
    assert_eq!(s.commands[0].output, "partial output");
    assert_eq!(s.commands[0].exit_code, None);
}

#[test]
fn missing_c_pre_exec_failure() {
    let mut p = Osc133Parser::new();
    let mut s = PaneState::new();

    marker(&mut p, b'A', None, &mut s);
    marker(&mut p, b'B', None, &mut s);
    // D without C — syntax error, history expansion failure, etc.
    marker(&mut p, b'D', Some("1"), &mut s);
    assert_eq!(s.completion_seq, 1);

    marker(&mut p, b'A', None, &mut s);
    marker(&mut p, b'B', None, &mut s);

    assert!(s.commands.is_empty());
    assert_eq!(*p.phase(), Osc133Phase::Input);
}

#[test]
fn b_without_d_pre_exec_failure() {
    let mut p = Osc133Parser::new();
    let mut s = PaneState::new();

    marker(&mut p, b'A', None, &mut s);
    marker(&mut p, b'B', None, &mut s);
    p.append_output("$ bad-syntax");
    marker(&mut p, b'C', None, &mut s);
    // A arrives without D — command abandoned
    marker(&mut p, b'A', None, &mut s);
    assert_eq!(s.commands.len(), 1);
    assert_eq!(s.commands[0].command, "$ bad-syntax");
    assert_eq!(s.commands[0].exit_code, None);

    marker(&mut p, b'B', None, &mut s);
    assert_eq!(s.commands.len(), 1);
}

// --- Recovery: duplicate markers ---

#[test]
fn duplicate_c_ignored() {
    let mut p = Osc133Parser::new();
    let mut s = PaneState::new();

    marker(&mut p, b'A', None, &mut s);
    marker(&mut p, b'B', None, &mut s);
    p.append_output("$ cmd");
    marker(&mut p, b'C', None, &mut s);
    p.append_output("out1");
    // Duplicate C — should be ignored, output continues
    marker(&mut p, b'C', None, &mut s);
    p.append_output("out2");

    if let Osc133Phase::Executing { command } = &*p.phase() {
        assert_eq!(command, "$ cmd");
    } else {
        panic!("Expected Executing");
    }
    assert_eq!(p.capture(), "out1out2");
}

#[test]
fn duplicate_a_resets_cleanly() {
    let mut p = Osc133Parser::new();
    let mut s = PaneState::new();

    marker(&mut p, b'A', None, &mut s);
    marker(&mut p, b'A', None, &mut s);
    assert_eq!(*p.phase(), Osc133Phase::Prompt);
}

#[test]
fn duplicate_b_resets_to_input() {
    let mut p = Osc133Parser::new();
    let mut s = PaneState::new();

    marker(&mut p, b'A', None, &mut s);
    marker(&mut p, b'B', None, &mut s);
    marker(&mut p, b'B', None, &mut s);
    assert_eq!(*p.phase(), Osc133Phase::Input);
}

// --- Recovery: unexpected states ---

#[test]
fn d_from_idle_recovers() {
    let mut p = Osc133Parser::new();
    let mut s = PaneState::new();

    p.append_output("some output");
    marker(&mut p, b'D', Some("0"), &mut s);
    assert_eq!(*p.phase(), Osc133Phase::Idle);
    assert_eq!(s.completion_seq, 1);
}

#[test]
fn c_from_idle_creates_executing() {
    let mut p = Osc133Parser::new();
    let mut s = PaneState::new();

    p.append_output("$ surprise");
    marker(&mut p, b'C', None, &mut s);
    if let Osc133Phase::Executing { command } = &*p.phase() {
        assert_eq!(command, "$ surprise");
    } else {
        panic!("Expected Executing");
    }
}

#[test]
fn reset_clears_everything() {
    let mut p = Osc133Parser::new();
    let mut s = PaneState::new();

    marker(&mut p, b'A', None, &mut s);
    marker(&mut p, b'B', None, &mut s);
    marker(&mut p, b'C', None, &mut s);
    p.append_output("partial");

    p.reset(&mut s);

    assert_eq!(*p.phase(), Osc133Phase::Idle);
    assert_eq!(s.activity, Activity::Unknown);
    assert!(p.capture().is_empty());
}

// --- Activity tracking ---

#[test]
fn activity_transitions() {
    let mut p = Osc133Parser::new();
    let mut s = PaneState::new();

    assert_eq!(s.activity, Activity::Unknown);

    marker(&mut p, b'A', None, &mut s);
    assert_eq!(s.activity, Activity::Idle);

    marker(&mut p, b'B', None, &mut s);
    assert_eq!(s.activity, Activity::Idle);

    marker(&mut p, b'C', None, &mut s);
    // C doesn't set activity — processor sets Busy

    marker(&mut p, b'D', Some("0"), &mut s);
    assert_eq!(s.activity, Activity::Idle);
}

// --- Rapid commands ---

#[test]
fn rapid_back_to_back_commands() {
    let mut p = Osc133Parser::new();
    let mut s = PaneState::new();

    // Command 1
    marker(&mut p, b'A', None, &mut s);
    marker(&mut p, b'B', None, &mut s);
    marker(&mut p, b'E', Some("echo 1"), &mut s);
    marker(&mut p, b'C', None, &mut s);
    p.append_output("1\n");
    marker(&mut p, b'D', Some("0"), &mut s);

    // Command 2 (B finalizes command 1)
    marker(&mut p, b'A', None, &mut s);
    marker(&mut p, b'B', None, &mut s);
    assert_eq!(s.commands.len(), 1);
    assert_eq!(s.commands[0].command, "echo 1");

    marker(&mut p, b'E', Some("echo 2"), &mut s);
    marker(&mut p, b'C', None, &mut s);
    p.append_output("2\n");
    marker(&mut p, b'D', Some("0"), &mut s);

    // Command 3 (B finalizes command 2)
    marker(&mut p, b'A', None, &mut s);
    marker(&mut p, b'B', None, &mut s);
    assert_eq!(s.commands.len(), 2);
    assert_eq!(s.commands[0].command, "echo 2");
    assert_eq!(s.commands[1].command, "echo 1");
}

// --- Empty command ---

#[test]
fn empty_command_just_enter() {
    let mut p = Osc133Parser::new();
    let mut s = PaneState::new();

    marker(&mut p, b'A', None, &mut s);
    marker(&mut p, b'B', None, &mut s);
    marker(&mut p, b'E', Some(""), &mut s);
    marker(&mut p, b'C', None, &mut s);
    marker(&mut p, b'D', Some("0"), &mut s);
    marker(&mut p, b'A', None, &mut s);
    marker(&mut p, b'B', None, &mut s);

    assert!(s.commands.is_empty());
}

// --- Error exit codes ---

#[test]
fn nonzero_exit_code() {
    let mut p = Osc133Parser::new();
    let mut s = PaneState::new();

    marker(&mut p, b'A', None, &mut s);
    marker(&mut p, b'B', None, &mut s);
    marker(&mut p, b'E', Some("false"), &mut s);
    marker(&mut p, b'C', None, &mut s);
    marker(&mut p, b'D', Some("1"), &mut s);
    marker(&mut p, b'A', None, &mut s);
    marker(&mut p, b'B', None, &mut s);

    assert_eq!(s.commands.len(), 1);
    assert_eq!(s.commands[0].exit_code, Some(1));
}

#[test]
fn signal_exit_code() {
    let mut p = Osc133Parser::new();
    let mut s = PaneState::new();

    marker(&mut p, b'A', None, &mut s);
    marker(&mut p, b'B', None, &mut s);
    marker(&mut p, b'E', Some("sleep 100"), &mut s);
    marker(&mut p, b'C', None, &mut s);
    marker(&mut p, b'D', Some("130"), &mut s);
    marker(&mut p, b'A', None, &mut s);
    marker(&mut p, b'B', None, &mut s);

    assert_eq!(s.commands[0].exit_code, Some(130));
}

// --- Output accumulation ---

#[test]
fn output_accumulates_between_c_and_d() {
    let mut p = Osc133Parser::new();
    let mut s = PaneState::new();

    marker(&mut p, b'A', None, &mut s);
    marker(&mut p, b'B', None, &mut s);
    marker(&mut p, b'E', Some("ls"), &mut s);
    marker(&mut p, b'C', None, &mut s);

    p.append_output("file1\n");
    p.append_output("file2\n");
    p.append_output("file3\n");

    marker(&mut p, b'D', Some("0"), &mut s);
    marker(&mut p, b'A', None, &mut s);
    marker(&mut p, b'B', None, &mut s);

    assert_eq!(s.commands[0].output, "file1\nfile2\nfile3\n");
}

#[test]
fn capture_cleared_by_b() {
    let mut p = Osc133Parser::new();
    let mut s = PaneState::new();

    p.append_output("stray output");
    marker(&mut p, b'A', None, &mut s);
    p.append_output("prompt text");
    marker(&mut p, b'B', None, &mut s);

    // B clears the capture buffer
    assert!(p.capture().is_empty());
}

#[test]
fn capture_cleared_by_c() {
    let mut p = Osc133Parser::new();
    let mut s = PaneState::new();

    marker(&mut p, b'A', None, &mut s);
    marker(&mut p, b'B', None, &mut s);
    p.append_output("command echo text");
    marker(&mut p, b'C', None, &mut s);

    // C clears capture — post-C output starts fresh
    assert!(p.capture().is_empty());
    p.append_output("real output");
    assert_eq!(p.capture(), "real output");
}

// --- Recovery from arbitrary start position ---

#[test]
fn recover_from_missed_start_then_next_command_works() {
    let mut p = Osc133Parser::new();
    let mut s = PaneState::new();

    marker(&mut p, b'D', Some("0"), &mut s);
    marker(&mut p, b'A', None, &mut s);
    marker(&mut p, b'B', None, &mut s);

    assert_eq!(*p.phase(), Osc133Phase::Input);

    marker(&mut p, b'A', None, &mut s);
    marker(&mut p, b'B', None, &mut s);
    p.append_output("$ echo hello");
    marker(&mut p, b'C', None, &mut s);
    p.append_output("hello\n");
    marker(&mut p, b'D', Some("0"), &mut s);
    marker(&mut p, b'A', None, &mut s);
    marker(&mut p, b'B', None, &mut s);

    assert!(
        s.commands.iter().any(|c| c.command == "$ echo hello"),
        "expected 'echo hello' in history, got: {:?}",
        s.commands,
    );
}

#[test]
fn command_without_c_marker_bumps_completion_seq() {
    let mut p = Osc133Parser::new();
    let mut s = PaneState::new();

    marker(&mut p, b'A', None, &mut s);
    marker(&mut p, b'B', None, &mut s);
    assert_eq!(s.completion_seq, 0);

    marker(&mut p, b'D', Some("0"), &mut s);
    assert_eq!(s.completion_seq, 1, "D must bump completion_seq");

    marker(&mut p, b'A', None, &mut s);
    marker(&mut p, b'B', None, &mut s);

    assert!(s.commands.is_empty());
    assert_eq!(*p.phase(), Osc133Phase::Input);
}

#[test]
fn failed_command_without_c_marker_bumps_completion_seq() {
    let mut p = Osc133Parser::new();
    let mut s = PaneState::new();

    marker(&mut p, b'A', None, &mut s);
    marker(&mut p, b'B', None, &mut s);

    marker(&mut p, b'D', Some("1"), &mut s);
    assert_eq!(s.completion_seq, 1);

    marker(&mut p, b'A', None, &mut s);
    marker(&mut p, b'B', None, &mut s);

    assert_eq!(*p.phase(), Osc133Phase::Input);
}

#[test]
fn d_a_b_flow_pending_survives_through_a() {
    let mut p = Osc133Parser::new();
    let mut s = PaneState::new();

    marker(&mut p, b'A', None, &mut s);
    marker(&mut p, b'B', None, &mut s);
    marker(&mut p, b'E', Some("ls"), &mut s);
    marker(&mut p, b'C', None, &mut s);
    p.append_output("file1\n");

    marker(&mut p, b'D', Some("0"), &mut s);
    assert!(s.commands.is_empty(), "D should not finalize yet");

    marker(&mut p, b'A', None, &mut s);
    assert!(s.commands.is_empty(), "A should not finalize (that's B's job)");

    marker(&mut p, b'B', None, &mut s);
    assert_eq!(s.commands.len(), 1, "B should finalize the command");
    assert_eq!(s.commands[0].command, "ls");
    assert_eq!(s.commands[0].exit_code, Some(0));
}

#[test]
fn multiple_commands_without_c_bump_completion_seq() {
    let mut p = Osc133Parser::new();
    let mut s = PaneState::new();

    marker(&mut p, b'A', None, &mut s);
    marker(&mut p, b'B', None, &mut s);

    for (i, exit_code) in ["0", "1", "0"].iter().enumerate() {
        marker(&mut p, b'D', Some(exit_code), &mut s);
        assert_eq!(s.completion_seq, (i + 1) as u64);
        marker(&mut p, b'A', None, &mut s);
        marker(&mut p, b'B', None, &mut s);
    }

    assert_eq!(*p.phase(), Osc133Phase::Input);
    assert_eq!(s.completion_seq, 3);
}

#[test]
fn state_is_input_after_recovery() {
    let mut p = Osc133Parser::new();
    let mut s = PaneState::new();

    marker(&mut p, b'D', Some("0"), &mut s);
    marker(&mut p, b'A', None, &mut s);
    marker(&mut p, b'B', None, &mut s);

    assert_eq!(*p.phase(), Osc133Phase::Input, "should be in Input after D→A→B recovery");
}

// --- Helpers ---

#[test]
fn parse_cmdline_url_basic() {
    assert_eq!(parse_cmdline_url("cmdline_url=echo%20hello"), Some("echo hello".into()));
}

#[test]
fn parse_cmdline_url_special_chars() {
    assert_eq!(
        parse_cmdline_url("cmdline_url=ls%20-la%20%2Ftmp"),
        Some("ls -la /tmp".into()),
    );
}

#[test]
fn parse_cmdline_url_no_prefix() {
    assert_eq!(parse_cmdline_url("something_else=foo"), None);
}

#[test]
fn strip_escapes_plain() {
    assert_eq!(strip_escapes("hello world"), "hello world");
}

#[test]
fn strip_escapes_ansi_colors() {
    assert_eq!(strip_escapes("\x1b[32mgreen\x1b[0m text"), "green text");
}

#[test]
fn strip_escapes_prompt() {
    assert_eq!(strip_escapes("$ \x1b[1mecho hello\x1b[0m"), "$ echo hello");
}

#[test]
fn percent_decode_plus_as_space() {
    assert_eq!(percent_decode("hello+world"), "hello world");
}

#[test]
fn command_starts_with_a_given_text() {
    let mut p = Osc133Parser::new();
    p.append_output("echo");
    p.start_executing("ls".to_string());
    assert_eq!(p.executing_command(), Some("ls"));
    assert_eq!(p.capture(), "");
}
