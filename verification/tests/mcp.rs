//! The text of tool results.

use tmux_mcp::mcp::{
    format_command_history, format_command_result, format_inject_result, format_screen,
    hinted_screen, is_failure, pane_place, relative_positions, CommandHistoryParams,
    CommandReadParams, CommandResult, CommandRunParams, DebugPaneParams, HistoryRow, PanePosition,
};

fn result(status: &str, output: &str) -> CommandResult {
    CommandResult {
        status: status.to_string(),
        output: output.to_string(),
        exit_code: None,
        command_id: Some(3),
        total_lines: 2,
        command: "ls".to_string(),
        lines_skipped: 0,
        search_matches: None,
        read_cursor: 0,
    }
}

#[test]
fn completed_run() {
    let mut r = result("completed", "a\nb");
    r.exit_code = Some(0);
    assert_eq!(format_command_result(&r, true), "$ ls\na\nb\n\nExit code: 0");
    assert_eq!(format_command_result(&r, false), "a\nb\n\nExit code: 0");
}

#[test]
fn completed_run_with_search() {
    let mut r = result("completed", "a");
    r.search_matches = Some(1);
    r.lines_skipped = 5;
    r.read_cursor = 2;
    assert_eq!(
        format_command_result(&r, true),
        "$ ls\n<2 lines already read>\n<3 lines not shown>\na\n\n[1 matches in 2 lines.]\n[Output filtered (2 lines total). Use command_read(command_id=3) with head, tail, or search for different views of the same command output.]"
    );
}

#[test]
fn search_without_matches() {
    let mut r = result("completed", "");
    r.search_matches = Some(0);
    assert_eq!(
        format_command_result(&r, true),
        "$ ls\n\n[0 matches in 2 lines.]\n[Search had no matches. Use command_read(command_id=3, tail=50) to browse the end, or command_read(command_id=3, search=\"different pattern\") to try again.]"
    );
}

#[test]
fn completed_read_without_output() {
    assert_eq!(
        format_command_result(&result("completed", ""), false),
        "\n[Command 3 completed. No unread output. Use head, tail, or search to review full output (2 lines).]"
    );
}

#[test]
fn running_command() {
    assert_eq!(
        format_command_result(&result("running", ""), false),
        "\n[No new output. Command still running (id=3). Increase timeout_secs or use press_key C-c to cancel.]"
    );
    let mut r = result("running", "a\n");
    r.search_matches = Some(4);
    assert_eq!(
        format_command_result(&r, false),
        "a\n\n[Command still running (id=3). 1 lines shown, 2 total. 4 search matches. Use command_read(command_id=3, next=200) to continue reading, or press_key C-c to cancel.]"
    );
}

#[test]
fn running_command_without_id() {
    let mut r = result("running", "");
    r.command_id = None;
    assert_eq!(format_command_result(&r, false), "");
}

#[test]
fn other_status() {
    assert_eq!(format_command_result(&result("unknown", "x  \n"), false), "x");
}

#[test]
fn failures() {
    assert!(is_failure(Some(1)));
    assert!(is_failure(Some(-1)));
    assert!(!is_failure(Some(0)));
    assert!(!is_failure(None));
}

#[test]
fn history_table() {
    let rows = vec![
        HistoryRow {
            command_id: Some(12),
            exit_code: Some(-1),
            output_lines: Some(123456),
            command: "ls".to_string(),
        },
        HistoryRow { command_id: None, exit_code: None, output_lines: None, command: "".to_string() },
    ];
    assert_eq!(
        format_command_history(&rows),
        "ID  Exit   Lines  Command\n12    -1  123456  ls\n -     -       -"
    );
    assert_eq!(format_command_history(&vec![]), "(no history)");
}

fn text(s: &str) -> Option<String> {
    Some(s.to_string())
}

#[test]
fn place_of_a_pane() {
    assert_eq!(pane_place(&text("/a"), &text("/b"), &text("u"), &text("h")), text("u@h:/a"));
    assert_eq!(pane_place(&None, &text("/b"), &None, &text("h")), text("h:/b"));
    assert_eq!(pane_place(&None, &text("/b"), &text("u"), &None), text("/b"));
    assert_eq!(pane_place(&None, &None, &text("u"), &text("h")), None);
}

#[test]
fn positions_from_the_origin() {
    let panes = vec![
        PanePosition { pane_id: "%0".to_string(), x: 0, y: 0 },
        PanePosition { pane_id: "%1".to_string(), x: 101, y: 10 },
    ];
    assert_eq!(relative_positions(&panes, "%1"), vec![(-101, -10), (0, 0)]);
    assert_eq!(relative_positions(&panes, "%9"), vec![(0, 0), (101, 10)]);
}

#[test]
fn injection_results() {
    assert_eq!(
        format_inject_result("active", "", ""),
        "OSC 133 injection successful — shell integration active."
    );
    assert_eq!(
        format_inject_result("already_active", "", ""),
        "OSC 133 already active — no injection needed. command_run should work."
    );
    assert_eq!(
        format_inject_result("failed", "m", ""),
        "OSC 133 injection status: failed — m"
    );
    assert_eq!(
        format_inject_result("failed", "m", "s"),
        "OSC 133 injection status: failed — m\n\nScreen:\ns"
    );
}

#[test]
fn screen_with_a_hint() {
    assert_eq!(
        format_screen(Some((4, "echo \"a\"\n".to_string())), "$ "),
        "[Command 4 (\"echo \\\"a\\\"\\n\") is running. Use command_read(command_id=4) for structured output with cursor tracking.]\n\n$ "
    );
    assert_eq!(format_screen(None, "$ "), "$ ");
    assert_eq!(
        hinted_screen(4, "'x'", ""),
        "[Command 4 ('x') is running. Use command_read(command_id=4) for structured output with cursor tracking.]\n\n"
    );
}

#[test]
fn parameters_have_defaults() {
    let pane_id = || "%1".to_string();
    let mut run = CommandRunParams {
        pane_id: pane_id(),
        command: "ls".to_string(),
        timeout_secs: None,
        next: None,
        head: None,
        tail: None,
        search: None,
        before: None,
        after: None,
    };
    assert_eq!(run.timeout(), 30);
    run.timeout_secs = Some(0);
    assert_eq!(run.timeout(), 0);
    let read = CommandReadParams {
        pane_id: pane_id(),
        command_id: None,
        timeout_secs: None,
        next: None,
        head: None,
        tail: None,
        search: None,
        before: None,
        after: None,
    };
    assert_eq!(read.timeout(), 5);
    assert_eq!(CommandHistoryParams { pane_id: pane_id(), count: None }.count(), 10);
    assert_eq!(DebugPaneParams { pane_id: pane_id(), lines: None }.lines(), 50);
}
