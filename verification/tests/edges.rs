//! Where the program meets its surroundings: processes, the daemon's files, the
//! policy hook, and inputs for the argument parser.

use tmux_mcp::client::{discover_session, lock_path, log_path, sanitize, socket_path, JsonRpcError};
use tmux_mcp::fuzz::{compare_structured, parse_input, Arg, FuzzInput, OptChar, RefResult};
use tmux_mcp::policy::args::ArgStyle;
use tmux_mcp::hook::{hook_answer, needs_judgement, HookAnswer, Judgement};
use tmux_mcp::proc::{
    find_foreground, foreground_comm, get_leaf_pid, parse_children, proc_info, walk_step,
    ForegroundProcess, ProcEntry, WalkStep,
};

fn entry(pid: u32, comm: &str, children: &[u32]) -> ProcEntry {
    ProcEntry { pid, comm: Some(comm.to_string()), children: children.to_vec() }
}

#[test]
fn children_of_a_process() {
    assert_eq!(parse_children("12 34\t56 \n"), vec![12, 34, 56]);
    assert_eq!(parse_children(" x 7 99999999999"), vec![7]);
    assert!(parse_children("").is_empty());
}

#[test]
fn walk_goes_along_only_children() {
    assert_eq!(walk_step(1, 1, &[2]), WalkStep::Descend(2));
    assert_eq!(walk_step(1, 1, &[]), WalkStep::Idle);
    assert_eq!(walk_step(1, 2, &[]), WalkStep::Leaf(2));
    assert_eq!(walk_step(1, 2, &[3, 4]), WalkStep::Leaf(2));
}

#[test]
fn foreground_is_the_leaf() {
    let table = vec![entry(1, "bash\n", &[2]), entry(2, "make\n", &[3]), entry(3, "cc\n", &[])];
    assert_eq!(
        find_foreground(1, &table),
        Some(ForegroundProcess { pid: 3, comm: "cc".to_string() })
    );
}

#[test]
fn idle_shell_has_no_foreground() {
    assert_eq!(find_foreground(1, &vec![entry(1, "bash", &[])]), None);
    assert_eq!(find_foreground(1, &vec![entry(1, "bash", &[2, 3])]), None);
}

#[test]
fn foreground_without_a_name() {
    assert_eq!(find_foreground(1, &vec![entry(1, "bash", &[2])]), None);
}

#[test]
fn circular_table_ends() {
    let table = vec![entry(1, "a", &[2]), entry(2, "b", &[1])];
    assert_eq!(find_foreground(1, &table), None);
}

#[test]
fn process_information() {
    let fg = ForegroundProcess { pid: 9, comm: "vim".to_string() };
    let info = proc_info(5, Some("bash\n".to_string()), Some("/tmp".to_string()), Some(fg));
    let known = info.as_ref().unwrap();
    assert_eq!(known.comm, "bash");
    assert_eq!(known.cwd.as_deref(), Some("/tmp"));
    assert_eq!(get_leaf_pid(5, &info), 9);
    assert_eq!(foreground_comm(&info).as_deref(), Some("vim"));
    let idle = proc_info(5, Some("bash".to_string()), None, None);
    assert_eq!(get_leaf_pid(5, &idle), 5);
    assert_eq!(foreground_comm(&idle), None);
    assert!(proc_info(5, None, None, None).is_none());
    assert_eq!(get_leaf_pid(5, &None), 5);
}

#[test]
fn files_of_the_daemon() {
    assert_eq!(sanitize("a/b\\c d$e\0f"), "abcdef");
    assert_eq!(socket_path("$0"), "/tmp/tmux-mcp-0.sock");
    assert_eq!(lock_path("my session"), "/tmp/tmux-mcp-mysession.lock");
    assert_eq!(log_path("x/y"), "/tmp/tmux-mcp-xy.log");
}

#[test]
fn session_of_the_caller() {
    assert_eq!(discover_session(Some("/tmp/tmux-1000/default,123,4")), Ok("$4".to_string()));
    assert_eq!(
        discover_session(Some("/tmp/x,1,")),
        Err("Could not parse session from TMUX=/tmp/x,1,".to_string())
    );
    assert_eq!(
        discover_session(None),
        Err("TMUX environment variable not set — are you inside a tmux session?".to_string())
    );
}

#[test]
fn daemon_error_text() {
    let e = JsonRpcError { code: -32602, message: "bad".to_string() };
    assert_eq!(e.describe(), "RPC error -32602: bad");
}

fn judgement(result: Option<&str>) -> Judgement {
    Judgement {
        result: result.map(|s| s.to_string()),
        rule: Some("r".to_string()),
        message: None,
        hostname: None,
        cwd: Some("/w".to_string()),
        user: None,
        foreground: Some("bash".to_string()),
    }
}

#[test]
fn hook_lets_through() {
    assert_eq!(hook_answer("%1", "ls", &judgement(Some("allow"))), HookAnswer::Allow);
}

#[test]
fn hook_tells_lints() {
    let mut j = judgement(Some("lint"));
    assert_eq!(hook_answer("%1", "ls", &j), HookAnswer::Deny { reason: "lint error".to_string() });
    j.message = Some("use tail".to_string());
    assert_eq!(hook_answer("%1", "ls", &j), HookAnswer::Deny { reason: "use tail".to_string() });
}

#[test]
fn hook_blocks_denied_commands() {
    assert_eq!(
        hook_answer("%1", "eval x", &judgement(Some("deny"))),
        HookAnswer::Block {
            reason: "Policy denied: eval x\n  pane %1  host: local  cwd: /w  rule: r".to_string()
        }
    );
}

#[test]
fn hook_asks_otherwise() {
    let reason =
        "rm x\n  pane %1  user: ?  host: local  cwd: /w  shell: bash  rule: r".to_string();
    assert_eq!(
        hook_answer("%1", "rm x", &judgement(Some("ask"))),
        HookAnswer::Ask { reason: reason.clone() }
    );
    assert_eq!(hook_answer("%1", "rm x", &judgement(None)), HookAnswer::Ask { reason });
}

#[test]
fn hook_leaves_incomplete_requests() {
    assert!(!needs_judgement("", "ls"));
    assert!(!needs_judgement("%1", ""));
    assert!(needs_judgement("%1", "ls"));
}

#[test]
fn made_options() {
    let input = FuzzInput {
        opts: vec![
            OptChar { idx: 0, takes_value: true },
            OptChar { idx: 24, takes_value: false },
            OptChar { idx: 12, takes_value: false },
            OptChar { idx: 23, takes_value: true },
        ],
        argv: vec![],
    };
    assert_eq!(input.optstring(), "a:nz:");
    assert_eq!(input.valued_flags(), vec!["-a", "-z"]);
    let none = FuzzInput { opts: vec![], argv: vec![] };
    assert_eq!(none.optstring(), "a");
    assert!(none.valued_flags().is_empty());
}

#[test]
fn made_arguments() {
    let input = FuzzInput {
        opts: vec![],
        argv: vec![
            Arg::Flag(0),
            Arg::Grouped(0, 1),
            Arg::Grouped3(0, 1, 2),
            Arg::Attached(3, 107),
            Arg::Operand(42),
            Arg::DoubleDash,
            Arg::Dash,
            Arg::LongFlag(0),
            Arg::LongFlagEq(1, 205),
        ],
    };
    assert_eq!(
        input.argv_strings(),
        vec!["-a", "-ab", "-abc", "-dval7", "op42", "--", "-", "--flaga", "--flagb=val5"]
    );
    assert!(input.has_long_flags());
    assert!(!FuzzInput { opts: vec![], argv: vec![Arg::Dash] }.has_long_flags());
}

#[test]
fn made_long_options() {
    let input = FuzzInput {
        opts: vec![],
        argv: vec![Arg::LongFlag(0), Arg::LongFlagEq(0, 1), Arg::LongFlagEq(1, 2), Arg::Dash],
    };
    assert_eq!(
        input.long_options(),
        vec![("flaga".to_string(), false), ("flagb".to_string(), true)]
    );
}

fn valued_a(argv: Vec<Arg>) -> FuzzInput {
    FuzzInput { opts: vec![OptChar { idx: 0, takes_value: true }], argv }
}

#[test]
fn made_arguments_are_parsed() {
    let input = valued_a(vec![Arg::Operand(1), Arg::Attached(0, 7), Arg::LongFlagEq(1, 2)]);
    let r = parse_input(ArgStyle::Gnu, &input);
    assert_eq!(r.operands.len(), 1);
    let posix = parse_input(ArgStyle::Posix, &input);
    assert_eq!(posix.operands.len(), 3);
}

#[test]
fn parsers_are_compared() {
    let input = valued_a(vec![Arg::Attached(0, 7), Arg::Operand(1)]);
    let reference = |value: &str, operand: &str| RefResult {
        flags: vec![("-a".to_string(), Some(value.to_string()))],
        operands: vec![operand.to_string()],
    };
    assert!(compare_structured(ArgStyle::Gnu, &input, &reference("val7", "op1")));
    assert!(!compare_structured(ArgStyle::Gnu, &input, &reference("val8", "op1")));
    assert!(!compare_structured(ArgStyle::Gnu, &input, &reference("val7", "op2")));
}

#[test]
fn repeated_flags_are_not_compared() {
    let input = valued_a(vec![Arg::Attached(0, 7), Arg::Attached(0, 8)]);
    let reference = RefResult {
        flags: vec![
            ("-a".to_string(), Some("val7".to_string())),
            ("-a".to_string(), Some("val8".to_string())),
        ],
        operands: vec![],
    };
    assert!(compare_structured(ArgStyle::Gnu, &input, &reference));
}

#[test]
fn large_inputs_are_not_compared() {
    let input = valued_a(vec![Arg::Dash; 33]);
    let nothing = RefResult { flags: vec![], operands: vec![] };
    assert!(compare_structured(ArgStyle::Gnu, &input, &nothing));
    assert!(!compare_structured(ArgStyle::Gnu, &valued_a(vec![Arg::Dash]), &nothing));
}
