//! Requests to the daemon.

use tmux_mcp::daemon::command::{command_history, read_poll, run_poll, CommandStatus, RunStep};
use tmux_mcp::daemon::events::{action_commands, handle_notification, EventStep};
use tmux_mcp::daemon::gate::{
    after_inject, after_probe, before_inject, capture_lines, capture_screen, check_idle, check_keys,
    check_policy, check_run_request, marker_gate, markers_missing, pane_context, probe_poll,
    refuse_without_markers, request_approval, InjectReply, MarkerGate,
};
use tmux_mcp::daemon::panes::{idle_step, is_before, list_panes, pane_entry, MarkerStatus, IDLE_TIMEOUT_NANOS};
use tmux_mcp::daemon::read::{
    apply_read_params, check_params, count_hits, has_enough, show_lines, ReadParams,
};
use tmux_mcp::daemon::rpc::{
    dispatch, reach, required, resolve_caller_window, validate_pane_access, Method, RpcError,
};
use tmux_mcp::daemon::run::{begin_read, begin_run, sent_command, RunAction};
use tmux_mcp::pane::processor::PaneProcessor;
use tmux_mcp::pane::registry::{PaneRegistry, SyncAction};
use tmux_mcp::pane::state::{Activity, PaneState};
use tmux_mcp::parse::layout::LayoutPane;
use tmux_mcp::policy::approval::ApprovalStore;
use tmux_mcp::policy::config::compile_config;
use tmux_mcp::policy::{Decision, PaneContext};
use tmux_mcp::proc::{ForegroundProcess, ProcInfo};
use tmux_mcp::tmux::notification::parse_notification;

fn lp(pane_number: u32, width: usize, height: usize, x: usize, y: usize) -> LayoutPane {
    LayoutPane { pane_number, width, height, x, y }
}

/// Two windows: `%1` and `%2` in `@1`, `%3` in `@2`.
fn registry() -> PaneRegistry {
    let mut reg = PaneRegistry::new();
    reg.apply_layout("@1", &[lp(1, 80, 24, 0, 0), lp(2, 80, 24, 0, 25)]);
    reg.apply_layout("@2", &[lp(3, 80, 24, 0, 0)]);
    reg
}

fn ask(next: Option<usize>, head: Option<usize>, tail: Option<usize>, search: Option<&str>) -> ReadParams {
    ReadParams::from_values(next, head, tail, search.map(|s| s.to_string()), 0, 0).unwrap()
}

fn all() -> ReadParams {
    ask(None, None, None, None)
}

fn local() -> PaneContext {
    PaneContext {
        hostname: None,
        cwd: Some("/home/user/project".to_string()),
        foreground: None,
        user: Some("user".to_string()),
    }
}

// --- Errors and methods ---

#[test]
fn methods_by_name() {
    assert_eq!(dispatch("list_panes").unwrap(), Method::ListPanes);
    assert_eq!(dispatch("command_history").unwrap(), Method::CommandHistory);
    assert_eq!(dispatch("command_read").unwrap(), Method::CommandRead);
    assert_eq!(dispatch("command_run").unwrap(), Method::CommandRun);
    assert_eq!(dispatch("capture_pane").unwrap(), Method::CapturePane);
    assert_eq!(dispatch("inject_osc133").unwrap(), Method::InjectOsc133);
    assert_eq!(dispatch("send_keys").unwrap(), Method::SendKeys);
    assert_eq!(dispatch("request_approval").unwrap(), Method::RequestApproval);
}

#[test]
fn unknown_method() {
    let e = dispatch("nope").unwrap_err();
    assert_eq!(e, RpcError { code: -32601, message: "Unknown method: nope".to_string() });
}

#[test]
fn error_codes() {
    assert_eq!(RpcError::invalid_params("a".to_string()).code, -32602);
    assert_eq!(RpcError::internal("a".to_string()).code, -32603);
}

#[test]
fn missing_parameter() {
    assert_eq!(required(Some("x"), "keys").unwrap(), "x");
    assert_eq!(required(None, "keys").unwrap_err().message, "keys is required");
}

// --- Windows ---

#[test]
fn window_of_the_caller() {
    let reg = registry();
    assert_eq!(resolve_caller_window(&reg, Some("%2")).unwrap(), "@1");
    assert_eq!(
        resolve_caller_window(&reg, Some("%9")).unwrap_err().message,
        "Origin pane %9 not tracked by daemon"
    );
    assert_eq!(
        resolve_caller_window(&reg, None).unwrap_err().message,
        "origin_pane is required"
    );
}

#[test]
fn panes_of_other_windows_are_refused() {
    let reg = registry();
    assert!(validate_pane_access(&reg, "%2", "@1").is_ok());
    assert_eq!(
        validate_pane_access(&reg, "%3", "@1").unwrap_err(),
        RpcError {
            code: -32602,
            message: "Pane %3 is in window @2, not your window @1".to_string()
        }
    );
    assert_eq!(
        validate_pane_access(&reg, "%9", "@1").unwrap_err().message,
        "Unknown pane: %9"
    );
}

#[test]
fn reach_goes_by_window() {
    let reg = registry();
    assert_eq!(reach(&reg, Some("%1"), "%2").unwrap().pane_id, "%2");
    assert_eq!(reach(&reg, Some("%2"), "%1").unwrap().pane_id, "%1");
    assert!(reach(&reg, Some("%1"), "%3").is_err());
    assert!(reach(&reg, Some("%3"), "%1").is_err());
}

// --- Reading output ---

const TEN: &str = "1\n2\n3\n4\n5\n6\n7\n8\n9\n10\n";

#[test]
fn windows_exclude_one_another() {
    let e = ReadParams::from_values(Some(2), Some(2), None, None, 0, 0).unwrap_err();
    assert_eq!(e.code, -32602);
    assert!(e.message.contains("mutually exclusive"));
    assert!(ReadParams::from_values(None, Some(1), Some(1), None, 0, 0).is_err());
    assert!(ReadParams::from_values(Some(1), None, Some(1), None, 0, 0).is_err());
}

#[test]
fn bad_pattern_is_refused() {
    let e = ReadParams::from_values(None, None, None, Some("(".to_string()), 0, 0).unwrap_err();
    assert!(e.message.starts_with("invalid search regex: "));
    assert!(e.message.contains("unclosed group"));
}

#[test]
fn head_and_tail() {
    let mut cursor = 4;
    let r = apply_read_params(TEN, &mut cursor, &ask(None, Some(3), None, None));
    assert_eq!(r.lines, vec!["1", "2", "3"]);
    assert_eq!((r.total_lines, r.skipped, r.matched), (10, 0, None));
    let r = apply_read_params(TEN, &mut cursor, &ask(None, None, Some(3), None));
    assert_eq!(r.lines, vec!["8", "9", "10"]);
    assert_eq!(r.skipped, 7);
    let r = apply_read_params(TEN, &mut cursor, &all());
    assert_eq!(r.lines.len(), 10);
    assert_eq!(cursor, 4);
}

#[test]
fn next_advances_the_cursor() {
    let mut cursor = 0;
    let p = ask(Some(3), None, None, None);
    assert_eq!(apply_read_params(TEN, &mut cursor, &p).lines, vec!["1", "2", "3"]);
    assert_eq!(cursor, 3);
    let r = apply_read_params(TEN, &mut cursor, &p);
    assert_eq!(r.lines, vec!["4", "5", "6"]);
    assert_eq!(r.skipped, 3);
    let rest = ask(Some(usize::MAX), None, None, None);
    assert_eq!(apply_read_params(TEN, &mut cursor, &rest).lines, vec!["7", "8", "9", "10"]);
    assert_eq!(cursor, 10);
    assert!(apply_read_params(TEN, &mut cursor, &rest).lines.is_empty());
    assert_eq!(cursor, 10);
}

#[test]
fn search_filters_the_window() {
    let mut cursor = 0;
    let text = "1 apple\n2 banana\n3 apple pie\n4 cherry\n";
    let r = apply_read_params(text, &mut cursor, &ask(None, None, None, Some("apple")));
    assert_eq!(r.lines, vec!["1 apple", "3 apple pie"]);
    assert_eq!(r.matched, Some(2));
    let r = apply_read_params(text, &mut cursor, &ask(Some(2), None, None, Some("pie")));
    assert!(r.lines.is_empty());
    assert_eq!((r.matched, cursor), (Some(0), 2));
}

#[test]
fn search_shows_context() {
    let mut cursor = 0;
    let p = ReadParams::from_values(None, None, None, Some("^5$".to_string()), 1, 2).unwrap();
    let r = apply_read_params(TEN, &mut cursor, &p);
    assert_eq!(r.lines, vec!["4", "5", "6", "7"]);
    assert_eq!(r.matched, Some(1));
    let p = ReadParams::from_values(None, Some(5), None, Some("^[15]$".to_string()), 3, 0).unwrap();
    let r = apply_read_params(TEN, &mut cursor, &p);
    assert_eq!(r.lines, vec!["1", "2", "3", "4", "5"]);
    assert_eq!(r.matched, Some(2));
}

#[test]
fn shown_lines_go_by_their_matches() {
    let lines: Vec<String> = ["a", "b", "c", "d"].iter().map(|l| l.to_string()).collect();
    let matching = vec![false, true, false, false];
    assert_eq!(show_lines(&lines, &matching, 0, 0), vec!["b"]);
    assert_eq!(show_lines(&lines, &matching, 5, 1), vec!["a", "b", "c"]);
    assert_eq!(count_hits(&matching), 1);
    assert!(check_params(Some(1), None, None, None).is_ok());
    assert_eq!(
        check_params(None, None, None, Some("x".to_string())).unwrap_err().message,
        "invalid search regex: x"
    );
}

#[test]
fn empty_output_has_no_lines() {
    let mut cursor = 0;
    let r = apply_read_params("", &mut cursor, &all());
    assert!(r.lines.is_empty());
    assert_eq!(r.total_lines, 0);
}

#[test]
fn line_endings_in_output() {
    let mut cursor = 0;
    let r = apply_read_params("a\r\nb\n\nc\r", &mut cursor, &all());
    assert_eq!(r.lines, vec!["a", "b", "", "c\r"]);
}

#[test]
fn enough_to_answer() {
    assert!(has_enough("a\nb\n", 0, &ask(Some(2), None, None, None)));
    assert!(!has_enough("a\nb\n", 1, &ask(Some(2), None, None, None)));
    assert!(has_enough("a\nb\n", 1, &ask(None, Some(2), None, None)));
    assert!(!has_enough("a\nb\n", 0, &ask(Some(1), None, None, Some("c"))));
    assert!(has_enough("a\nb\nc\n", 0, &ask(Some(1), None, None, Some("c"))));
    assert!(!has_enough("a\n", 0, &ask(None, None, Some(1), None)));
    assert!(!has_enough("a\n", 9, &ask(Some(1), None, None, None)));
}

// --- Commands ---

#[test]
fn read_of_a_missing_command() {
    let mut s = PaneState::new();
    assert_eq!(
        read_poll(&mut s, None, &all(), false).unwrap_err().message,
        "No commands in history"
    );
    assert_eq!(
        read_poll(&mut s, Some(7), &all(), false).unwrap_err().message,
        "Command 7 not found"
    );
}

#[test]
fn read_of_a_completed_command() {
    let mut s = PaneState::new();
    let first = s.push_command("ls".to_string(), "a\nb\n".to_string(), Some(0));
    s.push_command("pwd".to_string(), "/\n".to_string(), Some(1));
    let r = read_poll(&mut s, None, &all(), false).unwrap().unwrap();
    assert_eq!(r.command.as_deref(), Some("pwd"));
    assert_eq!((r.status, r.exit_code), (CommandStatus::Completed, Some(1)));
    let r = read_poll(&mut s, Some(first), &ask(Some(1), None, None, None), false).unwrap().unwrap();
    assert_eq!((r.output.as_str(), r.total_lines, r.lines_skipped), ("a", 2, Some(0)));
    let r = read_poll(&mut s, Some(first), &ask(Some(1), None, None, None), false).unwrap().unwrap();
    assert_eq!((r.output.as_str(), r.lines_skipped), ("b", Some(1)));
    let r = read_poll(&mut s, Some(first), &ask(Some(1), None, None, None), false).unwrap().unwrap();
    assert_eq!(r.output, "");
}

#[test]
fn read_of_a_running_command() {
    let mut s = PaneState::new();
    s.push_command_start("make".to_string());
    let two = ask(Some(2), None, None, None);
    assert_eq!(read_poll(&mut s, None, &two, false).unwrap(), None);
    s.append_active_output("a\nb\n");
    let r = read_poll(&mut s, None, &two, false).unwrap().unwrap();
    assert_eq!((r.output.as_str(), r.status), ("a\nb", CommandStatus::Running));
    assert_eq!(r.lines_skipped, None);
    assert_eq!(read_poll(&mut s, None, &two, false).unwrap(), None);
    let r = read_poll(&mut s, None, &two, true).unwrap().unwrap();
    assert_eq!(r.output, "");
    let tail = ask(None, None, Some(1), None);
    assert_eq!(read_poll(&mut s, None, &tail, false).unwrap(), None);
    let r = read_poll(&mut s, None, &all(), false).unwrap().unwrap();
    assert_eq!((r.output.as_str(), r.lines_skipped), ("a\nb", Some(0)));
}

#[test]
fn run_waits_for_the_record_and_the_end() {
    let mut s = PaneState::new();
    let before = s.push_command("old".to_string(), "".to_string(), Some(0));
    let mut seen = false;
    assert_eq!(run_poll(&mut s, before, &mut seen, false, false, &all()), RunStep::Wait);
    assert!(!seen);
    assert_eq!(run_poll(&mut s, before, &mut seen, true, false, &all()), RunStep::NoMarkers);
    let id = s.push_command_start("new".to_string());
    assert_eq!(run_poll(&mut s, before, &mut seen, true, false, &all()), RunStep::Wait);
    assert!(seen);
    s.append_active_output("x\n");
    match run_poll(&mut s, before, &mut seen, true, true, &all()) {
        RunStep::Reply(r) => {
            assert_eq!(r.command_id, Some(id));
            assert_eq!((r.status, r.output.as_str()), (CommandStatus::Running, "x"));
        }
        other => panic!("unexpected {:?}", other),
    }
    s.active_command_mut().unwrap().completed = true;
    s.commands[0].exit_code = Some(2);
    match run_poll(&mut s, before, &mut seen, true, false, &all()) {
        RunStep::Reply(r) => {
            assert_eq!((r.status, r.exit_code), (CommandStatus::Completed, Some(2)));
            assert_eq!(r.lines_skipped, Some(0));
        }
        other => panic!("unexpected {:?}", other),
    }
}

#[test]
fn run_is_answered_early() {
    let mut s = PaneState::new();
    s.push_command_start("serve".to_string());
    let mut seen = false;
    let ready = ask(Some(1), None, None, Some("listening"));
    s.append_active_output("starting\n");
    assert_eq!(run_poll(&mut s, 0, &mut seen, false, false, &ready), RunStep::Wait);
    s.append_active_output("listening\n");
    assert!(matches!(run_poll(&mut s, 0, &mut seen, false, false, &ready), RunStep::Reply(_)));
}

#[test]
fn run_without_a_record_in_time() {
    let mut s = PaneState::new();
    let mut seen = false;
    match run_poll(&mut s, 0, &mut seen, false, true, &all()) {
        RunStep::Reply(r) => {
            assert_eq!((r.command_id, r.status, r.total_lines), (None, CommandStatus::Running, 0));
        }
        other => panic!("unexpected {:?}", other),
    }
}

#[test]
fn history_is_newest_first() {
    let mut s = PaneState::new();
    s.push_command("a".to_string(), "1\n2\n".to_string(), Some(0));
    s.push_command("b".to_string(), "".to_string(), None);
    let h = command_history(&s, 10);
    assert_eq!(h.len(), 2);
    assert_eq!((h[0].command.as_str(), h[0].exit_code, h[0].output_lines), ("b", None, 0));
    assert_eq!((h[1].command.as_str(), h[1].exit_code, h[1].output_lines), ("a", Some(0), 2));
    assert!(h[0].command_id > h[1].command_id);
    assert_eq!(command_history(&s, 1).len(), 1);
}

// --- Gates ---

#[test]
fn run_request_must_be_complete() {
    let message = |p, c, o| check_run_request(p, c, o).unwrap_err().message;
    assert_eq!(message(None, None, None), "pane_id is required");
    assert_eq!(message(Some("%1"), None, None), "command is required");
    assert_eq!(message(Some("%1"), Some("ls"), None), "origin_pane is required");
    assert!(message(Some("%1"), Some("sleep 60 &"), Some("%1")).contains("separate pane"));
    assert!(check_run_request(Some("%1"), Some("ls"), Some("%1")).is_ok());
}

#[test]
fn policy_gate() {
    let policy = compile_config(None, None);
    let mut store = ApprovalStore::new();
    let ctx = local();
    let mut check = |command: &str, store: &mut ApprovalStore, now: u64| {
        check_policy(command, "%0", "%1", &ctx, &ctx, &policy, store, now)
    };
    assert!(check("echo hi", &mut store, 0).is_ok());
    let e = check("eval x", &mut store, 0).unwrap_err();
    assert_eq!(e, RpcError { code: -32001, message: "Policy denied (rule: eval)".to_string() });
    let e = check("curl x", &mut store, 0).unwrap_err();
    assert_eq!(e.code, -32001);
    assert_eq!(
        e.message,
        "Policy: No pending approval (rule: network transfer). Install the tmux-mcp policy hook for interactive approval, or update the policy."
    );
    let r = request_approval("curl x", "%0", "%1", &ctx, &policy, &mut store, 5);
    assert_eq!(r.decision, Decision::Ask);
    assert!(check("curl x", &mut store, 6).is_ok());
    assert!(check("curl x", &mut store, 7).is_err());
}

#[test]
fn approval_is_noted_only_where_asked() {
    let policy = compile_config(None, None);
    let mut store = ApprovalStore::new();
    let ctx = local();
    let r = request_approval("echo hi", "%0", "%1", &ctx, &policy, &mut store, 0);
    assert_eq!(r.decision, Decision::Allow);
    let r = request_approval("eval x", "%0", "%1", &ctx, &policy, &mut store, 0);
    assert_eq!(r.decision, Decision::Deny);
    assert!(store.verify_and_consume("%0", "%1", "eval x", &ctx, 0).is_err());
}

#[test]
fn approval_expires() {
    let policy = compile_config(None, None);
    let mut store = ApprovalStore::new();
    let ctx = local();
    request_approval("curl x", "%0", "%1", &ctx, &policy, &mut store, 0);
    let e = check_policy("curl x", "%0", "%1", &ctx, &ctx, &policy, &mut store, 30_000_000_000);
    assert!(e.unwrap_err().message.contains("Approval expired"));
}

#[test]
fn context_of_a_pane() {
    let mut s = PaneState::new();
    s.update_cwd_from_osc7("file://bob@box/home/bob");
    let info = Some(ProcInfo {
        pid: 1,
        comm: "bash".to_string(),
        cwd: None,
        foreground: Some(ForegroundProcess { pid: 2, comm: "vim".to_string() }),
    });
    let ctx = pane_context(&s, &info);
    assert_eq!(ctx.hostname.as_deref(), Some("box"));
    assert_eq!(ctx.cwd.as_deref(), Some("/home/bob"));
    assert_eq!(ctx.user.as_deref(), Some("bob"));
    assert_eq!(ctx.foreground.as_deref(), Some("vim"));
}

#[test]
fn captured_screen() {
    let mut p = PaneProcessor::new(5, 20);
    p.process_chunk(b"one\r\ntwo\r\n\r\nfour");
    assert_eq!(capture_screen(&p, 50), "one\ntwo\n\nfour");
    assert_eq!(capture_screen(&p, 3), "\nfour");
    assert_eq!(capture_screen(&p, 0), "");
    assert_eq!(capture_screen(&PaneProcessor::new(3, 10), 50), "");
}

#[test]
fn busy_pane_is_refused() {
    let mut p = PaneProcessor::new(5, 40);
    assert!(check_idle(&p, "%1").is_ok());
    p.process_chunk(b"\x1b]133;A\x07$ \x1b]133;B\x07sleep 9\x1b]133;C\x07");
    let e = check_idle(&p, "%1").unwrap_err();
    assert_eq!(e.code, -32603);
    assert_eq!(
        e.message,
        "Pane %1 is busy running 'sleep 9'. Use command_read to check status or wait.\n\nScreen:\n$ sleep 9"
    );
}

#[test]
fn started_command_makes_a_pane_busy() {
    let mut p = PaneProcessor::new(5, 40);
    p.state_mut().push_command_start("top".to_string());
    assert!(check_idle(&p, "%1").unwrap_err().message.contains("'top'"));
    let mut q = PaneProcessor::new(5, 40);
    q.state_mut().activity = Activity::Busy;
    assert!(check_idle(&q, "%1").unwrap_err().message.contains("'(unknown command)'"));
}

#[test]
fn typing_is_not_disturbed() {
    let mut p = PaneProcessor::new(5, 40);
    p.process_chunk(b"\x1b]133;A\x07$ \x1b]133;B\x07");
    assert!(!p.has_input_content());
    assert!(check_idle(&p, "%1").is_ok());
    p.process_chunk(b"part");
    assert!(p.has_input_content());
    assert_eq!(
        check_idle(&p, "%1").unwrap_err().message,
        "User is typing in pane %1. Wait for them to finish or use a different pane.\n\nScreen:\n$ part"
    );
    p.process_chunk(b"\x08\x08\x08\x08    \x08\x08\x08\x08");
    assert!(!p.has_input_content());
}

#[test]
fn marker_gates() {
    let mut p = PaneProcessor::new(3, 20);
    assert_eq!(marker_gate(&p, 5), MarkerGate::Probe);
    assert!(after_probe(&mut p, 5, true).is_ok());
    assert_eq!(marker_gate(&p, 5), MarkerGate::Proceed);
    let e = after_probe(&mut p, 5, false).unwrap_err();
    assert!(e.message.starts_with("OSC 133 probe failed"));
    assert_eq!(marker_gate(&p, 5), MarkerGate::Refuse);
    let e = refuse_without_markers(&p, "None");
    assert!(e.message.contains("osc133_last_marker_secs: None\n\nScreen:\n"));
    after_probe(&mut p, 5, true).unwrap();
    assert!(markers_missing(&mut p, 5).message.starts_with("Command was sent but no OSC 133"));
    assert_eq!(marker_gate(&p, 5), MarkerGate::Refuse);
}

#[test]
fn probes() {
    assert_eq!(probe_poll(3, 4, false), Some(true));
    assert_eq!(probe_poll(3, 3, false), None);
    assert_eq!(probe_poll(3, 3, true), Some(false));
}

#[test]
fn injections() {
    let mut p = PaneProcessor::new(3, 20);
    assert_eq!(before_inject(&mut p, 5, false), None);
    assert_eq!(marker_gate(&p, 5), MarkerGate::Probe);
    assert_eq!(before_inject(&mut p, 5, true), Some(InjectReply::AlreadyActive));
    assert_eq!(marker_gate(&p, 5), MarkerGate::Proceed);
    p.process_chunk(b"oops");
    assert_eq!(
        after_inject(&mut p, 6, false),
        InjectReply::Failed { screen: "oops".to_string() }
    );
    assert_eq!(marker_gate(&p, 6), MarkerGate::Refuse);
    assert_eq!(after_inject(&mut p, 6, true), InjectReply::Active);
}

#[test]
fn keys_are_short() {
    assert!(check_keys("Enter").is_ok());
    assert_eq!(
        check_keys("Escape").unwrap_err().message,
        "keys too long: 6 chars (max 5). Use command_run for commands."
    );
    assert!(check_keys("éééé").is_err());
}

#[test]
fn captured_lines() {
    assert_eq!(capture_lines(None), 50);
    assert_eq!(capture_lines(Some(7)), 7);
    assert_eq!(capture_lines(Some(5000)), 1000);
}

// --- The way of a command ---

#[test]
fn run_from_request_to_answer() {
    let mut reg = registry();
    let policy = compile_config(None, None);
    let mut store = ApprovalStore::new();
    let go = |reg: &PaneRegistry, store: &mut ApprovalStore, pane: &str, command: &str| {
        begin_run(reg, Some(pane), Some(command), Some("%1"), &None, "None", &policy, store, 0)
    };
    assert_eq!(go(&reg, &mut store, "%2", "echo hi").unwrap_err().message, "Pane has no known PID");
    reg.set_pid("%2", 42);
    assert_eq!(go(&reg, &mut store, "%3", "echo hi").unwrap_err().code, -32602);
    assert_eq!(go(&reg, &mut store, "%2", "eval x").unwrap_err().code, -32001);
    assert_eq!(go(&reg, &mut store, "%2", "echo hi").unwrap(), (42, false));
    let p = reg.get_processor_mut("%2").unwrap();
    p.state_mut().osc133_confirm(42);
    assert_eq!(go(&reg, &mut store, "%2", "echo hi").unwrap(), (42, true));

    let p = reg.get_processor_mut("%2").unwrap();
    p.process_chunk(b"\x1b]133;A\x07$ \x1b]133;B\x07");
    let mut sent = sent_command(p, 42, all(), 30, 1_000);
    assert_eq!(sent.marker_deadline, 500_001_000);
    assert_eq!(sent.completion_deadline, 30_000_001_000);
    assert_eq!(sent.poll(p, 2_000), RunAction::Wait);
    p.process_chunk(b"echo hi\x1b]133;C\x07hi\r\n\x1b]133;D;0\x07\x1b]133;A\x07$ \x1b]133;B\x07");
    match sent.poll(p, 3_000) {
        RunAction::Answer(r) => {
            assert_eq!(r.command.as_deref(), Some("echo hi"));
            assert_eq!((r.output.as_str(), r.exit_code), ("hi", Some(0)));
        }
        other => panic!("unexpected {:?}", other),
    }
}

#[test]
fn run_without_markers_fails() {
    let mut reg = registry();
    let p = reg.get_processor_mut("%2").unwrap();
    p.state_mut().osc133_confirm(42);
    let mut sent = sent_command(p, 42, all(), 30, 0);
    match sent.poll(p, 500_000_000) {
        RunAction::Fail(e) => assert!(e.message.starts_with("Command was sent but no OSC 133")),
        other => panic!("unexpected {:?}", other),
    }
    assert_eq!(marker_gate(p, 42), MarkerGate::Refuse);
}

#[test]
fn refused_pane_is_not_run_in() {
    let mut reg = registry();
    let policy = compile_config(None, None);
    let mut store = ApprovalStore::new();
    reg.set_pid("%2", 42);
    reg.get_processor_mut("%2").unwrap().state_mut().osc133_fail(42);
    let e = begin_run(
        &reg, Some("%2"), Some("echo hi"), Some("%1"), &None, "Some(1.5)", &policy, &mut store, 0,
    );
    assert!(e.unwrap_err().message.contains("osc133_last_marker_secs: Some(1.5)"));
}

#[test]
fn deadlines_count_from_the_sending() {
    let p = PaneProcessor::new(2, 10);
    let mut sent = sent_command(&p, 7, all(), 30, 1_000);
    let before = sent.clone();
    sent.sent_at(1_000, 4_000);
    assert_eq!(sent.marker_deadline, before.marker_deadline + 3_000);
    assert_eq!(sent.completion_deadline, before.completion_deadline + 3_000);
    assert_eq!((sent.leaf_pid, sent.id_before, sent.seen), (7, before.id_before, false));
    // A clock that went back, and one at its end
    let once = sent.clone();
    sent.sent_at(4_000, 1_000);
    assert_eq!(sent, once);
    sent.sent_at(0, u64::MAX);
    assert_eq!((sent.marker_deadline, sent.completion_deadline), (u64::MAX, u64::MAX));
}

#[test]
fn endless_wait_is_far_away() {
    let p = PaneProcessor::new(2, 10);
    let sent = sent_command(&p, 1, all(), u64::MAX, 5);
    assert_eq!(sent.completion_deadline, u64::MAX);
}

#[test]
fn read_request_is_checked_in_order() {
    let reg = registry();
    let bad = || ReadParams::from_values(Some(1), Some(1), None, None, 0, 0);
    assert_eq!(begin_read(&reg, None, None, bad()).unwrap_err().message, "pane_id is required");
    assert!(begin_read(&reg, Some("%1"), None, bad()).unwrap_err().message.contains("exclusive"));
    assert_eq!(
        begin_read(&reg, Some("%1"), None, Ok(all())).unwrap_err().message,
        "origin_pane is required"
    );
    assert_eq!(begin_read(&reg, Some("%1"), Some("%2"), Ok(all())).unwrap(), all());
}

// --- Notifications ---

#[test]
fn output_is_fed_to_its_pane() {
    let mut reg = registry();
    let n = parse_notification("%output %2 hi\\040there");
    assert_eq!(handle_notification(&mut reg, &n, 77), EventStep::Continue(vec![]));
    let p = &reg.get("%2").unwrap().processor;
    assert_eq!(p.screen_line_text(0), "hi there");
    assert_eq!(p.state().last_data, Some(77));
    assert_eq!(reg.get("%1").unwrap().processor.screen_line_text(0), "");
    let lost = parse_notification("%output %9 hi");
    assert_eq!(handle_notification(&mut reg, &lost, 78), EventStep::Continue(vec![]));
}

#[test]
fn layout_change_is_applied() {
    let mut reg = registry();
    let n = parse_notification("%layout-change @1 aaaa,80x24,0,0,1 aaaa,80x24,0,0,1 *");
    let step = handle_notification(&mut reg, &n, 0);
    assert_eq!(
        step,
        EventStep::Continue(vec![SyncAction::PaneRemoved { pane_id: "%2".to_string() }])
    );
    assert_eq!(reg.len(), 2);
}

#[test]
fn pane_of_any_size_is_tracked() {
    let mut reg = registry();
    let n = parse_notification(
        "%layout-change @1 aaaa,82x24,0,0{80x24,0,0,1,1x24,81,0,2,70000x24,83,0,8,5x0,84,0,9}",
    );
    let id = |s: &str| s.to_string();
    assert_eq!(
        handle_notification(&mut reg, &n, 0),
        EventStep::Continue(vec![
            SyncAction::Resized { pane_id: id("%2"), width: 1, height: 24 },
            SyncAction::PaneAdded { pane_id: id("%8") },
            SyncAction::PaneAdded { pane_id: id("%9") },
        ])
    );
    let size = |reg: &PaneRegistry, id: &str| {
        let p = &reg.get(id).unwrap().processor;
        (p.columns(), p.screen_lines())
    };
    assert_eq!(size(&reg, "%1"), (80, 24));
    assert_eq!(size(&reg, "%2"), (1, 24));
    assert_eq!(size(&reg, "%8"), (70000, 24));
    assert_eq!(size(&reg, "%9"), (5, 0));
    assert_eq!(handle_notification(&mut reg, &n, 0), EventStep::Continue(vec![]));
    let wide = parse_notification("%output %2 \\346\\274\\242x");
    assert_eq!(handle_notification(&mut reg, &wide, 0), EventStep::Continue(vec![]));
    assert!(reg.get("%2").unwrap().processor.screen_text().concat().contains('x'));
}

#[test]
fn closed_window_is_removed() {
    let mut reg = registry();
    let n = parse_notification("%window-close @1");
    match handle_notification(&mut reg, &n, 0) {
        EventStep::Continue(actions) => assert_eq!(actions.len(), 2),
        other => panic!("unexpected {:?}", other),
    }
    assert!(reg.get("%1").is_none());
    assert!(reg.get("%3").is_some());
}

#[test]
fn session_end_stops() {
    let mut reg = registry();
    assert_eq!(handle_notification(&mut reg, &parse_notification("%exit"), 0), EventStep::Stop);
    let n = parse_notification("%session-closed $0");
    assert_eq!(handle_notification(&mut reg, &n, 0), EventStep::Stop);
    let n = parse_notification("%window-add @5");
    assert_eq!(handle_notification(&mut reg, &n, 0), EventStep::Continue(vec![]));
}

#[test]
fn screen_has_the_nearest_size() {
    let mut p = PaneProcessor::new(0, 1);
    assert_eq!((p.screen_lines(), p.columns()), (0, 1));
    p.process_chunk(b"ab");
    assert_eq!(p.screen_line_text(0), "ab");
    p.resize(3, 4);
    assert_eq!((p.screen_lines(), p.columns()), (3, 4));
    p.process_chunk(b"\r\n1234567");
    assert_eq!(p.screen_text(), vec!["ab", "1234", "567"]);
    p.resize(2, 1);
    assert_eq!((p.screen_lines(), p.columns()), (2, 1));
    assert_eq!(p.screen_text().len(), 2);
}

#[test]
fn commands_of_actions() {
    let id = || "%4".to_string();
    assert_eq!(
        action_commands(&SyncAction::PaneAdded { pane_id: id() }),
        vec!["refresh-client -A '%4:on'", "display-message -p -t %4 '#{pane_pid}'"]
    );
    assert_eq!(
        action_commands(&SyncAction::PaneRemoved { pane_id: id() }),
        vec!["refresh-client -A '%4:off'"]
    );
    assert!(action_commands(&SyncAction::Resized { pane_id: id(), width: 1, height: 1 }).is_empty());
}

// --- Listing ---

#[test]
fn entry_of_a_pane() {
    let mut reg = registry();
    reg.set_pid("%2", 42);
    let p = reg.get_processor_mut("%2").unwrap();
    p.state_mut().set_clock(1_000);
    p.process_chunk(b"\x1b]7;file://bob@box/w\x07\x1b]133;A\x07");
    p.state_mut().osc133_confirm(43);
    let info = Some(ProcInfo {
        pid: 42,
        comm: "bash".to_string(),
        cwd: Some("/p".to_string()),
        foreground: Some(ForegroundProcess { pid: 43, comm: "vim".to_string() }),
    });
    let e = pane_entry(reg.get("%2").unwrap(), &info, "other", 4_000);
    assert_eq!((e.width, e.height, e.x, e.y), (80, 24, 0, 25));
    assert_eq!((e.process_cwd.as_deref(), e.osc_cwd.as_deref()), (Some("/p"), Some("/w")));
    assert_eq!((e.osc_user.as_deref(), e.osc_hostname.as_deref()), (Some("bob"), Some("box")));
    assert_eq!(e.foreground.as_deref(), Some("vim"));
    assert_eq!((e.marker_age, e.data_age), (Some(3_000), Some(3_000)));
    assert_eq!((e.activity, e.osc133_status), (Activity::Idle, MarkerStatus::Confirmed));
    let same = pane_entry(reg.get("%2").unwrap(), &None, "box", 4_000);
    assert_eq!((same.osc_hostname, same.osc133_status), (None, MarkerStatus::Unknown));
}

#[test]
fn panes_are_listed_in_order() {
    let mut reg = PaneRegistry::new();
    reg.apply_layout("@1", &[lp(10, 80, 24, 0, 0), lp(2, 80, 24, 0, 0), lp(1, 80, 24, 0, 0)]);
    reg.apply_layout("@2", &[lp(0, 80, 24, 0, 0)]);
    let infos = vec![None, None, None, None];
    let list = list_panes(&reg, Some("%2"), &infos, "h", 0).unwrap();
    let ids: Vec<&str> = list.iter().map(|e| e.pane_id.as_str()).collect();
    assert_eq!(ids, vec!["%1", "%10", "%2"]);
    assert!(list_panes(&reg, None, &infos, "h", 0).is_err());
    assert!(list_panes(&reg, Some("%7"), &infos, "h", 0).is_err());
}

#[test]
fn order_of_texts() {
    assert!(is_before("%1", "%10"));
    assert!(is_before("%10", "%2"));
    assert!(!is_before("%2", "%2"));
    assert!(is_before("", "a"));
    assert!(!is_before("a", ""));
}

#[test]
fn status_names() {
    assert_eq!(MarkerStatus::Confirmed.name(), "confirmed");
    assert_eq!(MarkerStatus::Failed.name(), "failed");
    assert_eq!(MarkerStatus::Unknown.name(), "unknown");
}

#[test]
fn idle_daemon_stops() {
    assert_eq!(idle_step(1, 0, 9), (9, false));
    assert_eq!(idle_step(0, 5, 6), (5, false));
    assert_eq!(idle_step(0, 5, 5 + IDLE_TIMEOUT_NANOS), (5, true));
    assert_eq!(idle_step(0, 9, 5), (9, false));
}
