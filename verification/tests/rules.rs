//! Rules and their evaluation.

use std::collections::HashMap;
use std::sync::Arc;
use tmux_mcp::policy::cel::{references_command_field, CelExpr};
use tmux_mcp::policy::config::{load_merged_config, RuleConfig, RuleSource, TaggedRule};
use tmux_mcp::policy::getopt::run_getopt;
use tmux_mcp::policy::parse::{CommandInfo, Effective};
use tmux_mcp::policy::path::resolve_path;
use tmux_mcp::policy::rules::{compile, evaluate, RuleSet};
use tmux_mcp::policy::value::{TriMap, TriVal};
use tmux_mcp::policy::{Decision, PaneContext};

fn cmd(name: &str) -> CommandInfo {
    CommandInfo::simple(name)
}

fn cmd_with_args(name: &str, args: &[&str]) -> CommandInfo {
    CommandInfo {
        args: args.iter().map(|s| s.to_string()).collect(),
        ..CommandInfo::simple(name)
    }
}

fn local_pane() -> PaneContext {
    PaneContext {
        hostname: None,
        cwd: Some("/home/user".into()),
        foreground: Some("bash".into()),
        user: Some("jess".into()),
    }
}

fn remote_pane(host: &str) -> PaneContext {
    PaneContext {
        hostname: Some(host.into()),
        ..local_pane()
    }
}

fn compile_rules(specs: &[(&str, &str, &str)]) -> RuleSet {
    let tagged: Vec<TaggedRule> = specs.iter().enumerate().map(|(i, (desc, when, action))| {
        TaggedRule {
            config: RuleConfig {
                description: desc.to_string(),
                when: when.to_string(),
                action: action.to_string(),
                order: 0,
                message: None,
                capture_cwd: None,
            },
            source: RuleSource::Builtin,
            source_index: i,
        }
    }).collect();
    compile(&tagged, Decision::Ask).unwrap()
}

// --- Expressions ---

fn ast_of(text: &str) -> CelExpr {
    compile_rules(&[("expression", text, "ask")]).rules.remove(0).ast
}

#[test]
fn parser_handles_equality() {
    match ast_of(r#"x == "hello""#) {
        CelExpr::Call(c) => assert_eq!(c.func_name, "_==_"),
        _ => panic!("expected a call"),
    }
}

#[test]
fn parser_handles_boolean_and() {
    match ast_of("a && b") {
        CelExpr::Call(c) => assert_eq!(c.func_name, "_&&_"),
        _ => panic!("expected a call"),
    }
}

#[test]
fn parser_handles_in_operator() {
    match ast_of(r#"x in ["a","b"]"#) {
        CelExpr::Call(c) => assert_eq!(c.func_name, "@in"),
        _ => panic!("expected a call"),
    }
}

#[test]
fn parser_handles_field_access() {
    match ast_of("a.b.c") {
        CelExpr::Select { operand, field } => {
            assert_eq!(field, "c");
            match *operand {
                CelExpr::Select { field, .. } => assert_eq!(field, "b"),
                _ => panic!("expected a nested selection"),
            }
        }
        _ => panic!("expected a selection"),
    }
}

#[test]
fn parser_handles_exists() {
    assert!(matches!(ast_of(r#"xs.exists(x, x == "a")"#), CelExpr::Fold(_)));
}

#[test]
fn parser_rejects_invalid_syntax() {
    let rule = TaggedRule {
        config: RuleConfig {
            description: "expression".to_string(),
            when: "invalid @@@ syntax".to_string(),
            action: "ask".to_string(),
            order: 0,
            message: None,
            capture_cwd: None,
        },
        source: RuleSource::Builtin,
        source_index: 0,
    };
    assert!(compile(&[rule], Decision::Ask).is_err());
}

// --- Basic matching ---

#[test]
fn name_equals_matches() {
    let rules = compile_rules(&[("ls rule", r#"command.name == "ls""#, "allow")]);
    assert_eq!(evaluate(&cmd("ls"), &local_pane(), &rules).decision, Decision::Allow);
}

#[test]
fn name_equals_no_match() {
    let rules = compile_rules(&[("ls rule", r#"command.name == "ls""#, "allow")]);
    assert_eq!(evaluate(&cmd("cat"), &local_pane(), &rules).decision, Decision::Ask);
}

#[test]
fn name_in_list_matches() {
    let rules = compile_rules(&[("tools", r#"command.name in ["ls","cat","grep"]"#, "allow")]);
    assert_eq!(evaluate(&cmd("cat"), &local_pane(), &rules).decision, Decision::Allow);
}

#[test]
fn args_exists_matches() {
    let rules = compile_rules(&[
        ("rm -rf", r#"command.name == "rm" && command.args.exists(a, a == "-rf")"#, "ask"),
    ]);
    assert_eq!(evaluate(&cmd_with_args("rm", &["-rf", "/"]), &local_pane(), &rules).decision, Decision::Ask);
}

#[test]
fn args_exists_no_match() {
    let rules = compile_rules(&[
        ("rm -rf", r#"command.name == "rm" && command.args.exists(a, a == "-rf")"#, "deny"),
        ("rm allow", r#"command.name == "rm""#, "allow"),
    ]);
    assert_eq!(evaluate(&cmd_with_args("rm", &["-v", "file"]), &local_pane(), &rules).decision, Decision::Allow);
}

// --- First match wins ---

#[test]
fn first_rule_wins_on_match() {
    let rules = compile_rules(&[
        ("allow ls", r#"command.name == "ls""#, "allow"),
        ("deny ls", r#"command.name == "ls""#, "deny"),
    ]);
    assert_eq!(evaluate(&cmd("ls"), &local_pane(), &rules).decision, Decision::Allow);
}

#[test]
fn later_rule_used_if_first_doesnt_match() {
    let rules = compile_rules(&[
        ("allow cat", r#"command.name == "cat""#, "allow"),
        ("deny ls", r#"command.name == "ls""#, "deny"),
    ]);
    assert_eq!(evaluate(&cmd("ls"), &local_pane(), &rules).decision, Decision::Deny);
}

#[test]
fn no_match_returns_default() {
    let rules = compile_rules(&[("allow cat", r#"command.name == "cat""#, "allow")]);
    let r = evaluate(&cmd("ls"), &local_pane(), &rules);
    assert_eq!(r.decision, Decision::Ask);
    assert_eq!(r.rule, "default");
}

// --- Unknown (unknowable value) ---

#[test]
fn unknown_user_equality_is_unknown() {
    let rules = compile_rules(&[
        ("root check", r#"command.effective_user == "root""#, "deny"),
    ]);
    let mut c = cmd("rm");
    c.effective_user = Effective::Unknown;
    // Unknown == "root" → Unknown → no match → default Ask
    assert_eq!(evaluate(&c, &local_pane(), &rules).decision, Decision::Ask);
}

#[test]
fn unknown_user_inequality_is_unknown() {
    let rules = compile_rules(&[
        ("not root", r#"command.effective_user != "root""#, "allow"),
    ]);
    let mut c = cmd("rm");
    c.effective_user = Effective::Unknown;
    // Unknown != "root" → Unknown → no match → default Ask
    assert_eq!(evaluate(&c, &local_pane(), &rules).decision, Decision::Ask);
}

#[test]
fn known_user_equals_matches() {
    let rules = compile_rules(&[
        ("root check", r#"command.effective_user == "root""#, "deny"),
    ]);
    let mut c = cmd("rm");
    c.effective_user = Effective::Known("root".into());
    assert_eq!(evaluate(&c, &local_pane(), &rules).decision, Decision::Deny);
}

#[test]
fn unchanged_user_resolves_to_pane_user() {
    let rules = compile_rules(&[
        ("jess check", r#"command.effective_user == "jess""#, "allow"),
    ]);
    assert_eq!(evaluate(&cmd("ls"), &local_pane(), &rules).decision, Decision::Allow);
}

#[test]
fn unknown_in_or_with_known_true() {
    // True || Unknown → True (OR short-circuit)
    let rules = compile_rules(&[
        ("or test", r#"command.name == "ls" || command.effective_user == "root""#, "allow"),
    ]);
    let mut c = cmd("ls");
    c.effective_user = Effective::Unknown;
    assert_eq!(evaluate(&c, &local_pane(), &rules).decision, Decision::Allow);
}

#[test]
fn unknown_in_and_with_known_true() {
    // True && Unknown → Unknown → no match
    let rules = compile_rules(&[
        ("and test", r#"command.name == "rm" && command.effective_user == "root""#, "deny"),
    ]);
    let mut c = cmd("rm");
    c.effective_user = Effective::Unknown;
    assert_eq!(evaluate(&c, &local_pane(), &rules).decision, Decision::Ask);
}

// --- Null (definite absence) ---

#[test]
fn null_equality_is_false() {
    // parent is Null → parent.name == "sudo" → Null == "sudo" → False
    let rules = compile_rules(&[
        ("sudo parent", r#"command.parent.name == "sudo""#, "deny"),
    ]);
    assert_eq!(evaluate(&cmd("ls"), &local_pane(), &rules).decision, Decision::Ask);
}

#[test]
fn null_inequality_is_true() {
    // parent is Null → parent.name != "sudo" → Null != "sudo" → True
    let rules = compile_rules(&[
        ("not sudo parent", r#"command.parent.name != "sudo""#, "allow"),
    ]);
    assert_eq!(evaluate(&cmd("ls"), &local_pane(), &rules).decision, Decision::Allow);
}

#[test]
fn null_equals_null() {
    // parent is Null → parent == null → Null == Null → True
    let rules = compile_rules(&[
        ("no parent", r#"command.parent == null"#, "allow"),
    ]);
    assert_eq!(evaluate(&cmd("ls"), &local_pane(), &rules).decision, Decision::Allow);
}

#[test]
fn parent_not_null_when_present() {
    let rules = compile_rules(&[
        ("has parent", r#"command.parent != null"#, "deny"),
    ]);
    let mut c = cmd("rm");
    c.parent = Some(Arc::new(cmd("sudo")));
    assert_eq!(evaluate(&c, &local_pane(), &rules).decision, Decision::Deny);
}

#[test]
fn null_field_access_propagates() {
    // parent.name.something → Null.name → Null, Null.something → Null
    let rules = compile_rules(&[
        ("deep null", r#"command.parent.name == "test""#, "deny"),
    ]);
    assert_eq!(evaluate(&cmd("ls"), &local_pane(), &rules).decision, Decision::Ask);
}

// --- Null vs Unknown are distinct ---

#[test]
fn null_ne_produces_true() {
    // Null != "x" → True (definite: nothing isn't "x")
    let rules = compile_rules(&[
        ("null ne", r#"command.parent.name != "x""#, "allow"),
    ]);
    assert_eq!(evaluate(&cmd("ls"), &local_pane(), &rules).decision, Decision::Allow);
}

#[test]
fn unknown_ne_produces_unknown() {
    // Unknown != "x" → Unknown (uncertain: could be "x")
    let rules = compile_rules(&[
        ("unknown ne", r#"command.effective_user != "root""#, "allow"),
    ]);
    let mut c = cmd("ls");
    c.effective_user = Effective::Unknown;
    assert_eq!(evaluate(&c, &local_pane(), &rules).decision, Decision::Ask);
}

// --- Non-exhaustive list ---

#[test]
fn nonexhaustive_exists_found_is_true() {
    let rules = compile_rules(&[
        ("has -v", r#"command.args.exists(a, a == "-v")"#, "allow"),
    ]);
    let mut c = cmd_with_args("rm", &["-v"]);
    c.args_complete = false;
    assert_eq!(evaluate(&c, &local_pane(), &rules).decision, Decision::Allow);
}

#[test]
fn nonexhaustive_exists_not_found_is_unknown() {
    let rules = compile_rules(&[
        ("has -rf", r#"command.args.exists(a, a == "-rf")"#, "deny"),
    ]);
    let mut c = cmd_with_args("rm", &["-v"]);
    c.args_complete = false;
    // exists returns Unknown (not found in known, list non-exhaustive) → no match
    assert_eq!(evaluate(&c, &local_pane(), &rules).decision, Decision::Ask);
}

#[test]
fn exhaustive_exists_not_found_is_false() {
    let rules = compile_rules(&[
        ("has -rf", r#"command.args.exists(a, a == "-rf")"#, "deny"),
        ("rm allow", r#"command.name == "rm""#, "allow"),
    ]);
    let c = cmd_with_args("rm", &["-v"]);
    // exhaustive list, -rf not found → False → try next rule → allow
    assert_eq!(evaluate(&c, &local_pane(), &rules).decision, Decision::Allow);
}

#[test]
fn nonexhaustive_in_found_is_true() {
    let rules = compile_rules(&[
        ("v in list", r#""-v" in command.args"#, "allow"),
    ]);
    let mut c = cmd_with_args("rm", &["-v"]);
    c.args_complete = false;
    assert_eq!(evaluate(&c, &local_pane(), &rules).decision, Decision::Allow);
}

#[test]
fn nonexhaustive_in_not_found_is_unknown() {
    let rules = compile_rules(&[
        ("rf in args", r#""-rf" in command.args"#, "deny"),
    ]);
    let mut c = cmd_with_args("rm", &["-v"]);
    c.args_complete = false;
    assert_eq!(evaluate(&c, &local_pane(), &rules).decision, Decision::Ask);
}

#[test]
fn nonexhaustive_not_exists_is_unknown() {
    let rules = compile_rules(&[
        ("no -rf", r#"!(command.args.exists(a, a == "-rf"))"#, "allow"),
    ]);
    let mut c = cmd_with_args("rm", &["-v"]);
    c.args_complete = false;
    // !Unknown → Unknown → no match
    assert_eq!(evaluate(&c, &local_pane(), &rules).decision, Decision::Ask);
}

// --- Boolean propagation (Kleene) ---

#[test]
fn false_and_unknown_is_false() {
    let rules = compile_rules(&[
        ("test", r#"command.name == "cat" && command.effective_user == "root""#, "deny"),
    ]);
    let mut c = cmd("rm");  // name != "cat" → False
    c.effective_user = Effective::Unknown;
    // False && Unknown → False → no match
    assert_eq!(evaluate(&c, &local_pane(), &rules).decision, Decision::Ask);
}

// --- Pane context ---

#[test]
fn pane_hostname_matches() {
    let rules = compile_rules(&[
        ("prod host", r#"pane.hostname == "prod-server""#, "deny"),
    ]);
    assert_eq!(evaluate(&cmd("ls"), &remote_pane("prod-server"), &rules).decision, Decision::Deny);
}

#[test]
fn pane_cwd_matches() {
    let rules = compile_rules(&[
        ("etc", r#"pane.cwd == "/etc""#, "deny"),
    ]);
    let pane = PaneContext { cwd: Some("/etc".into()), ..local_pane() };
    assert_eq!(evaluate(&cmd("ls"), &pane, &rules).decision, Decision::Deny);
}

// --- Pipe target ---

#[test]
fn pipe_target_matches() {
    let rules = compile_rules(&[
        ("pipe to bash", r#"command.name == "bash" && command.is_pipe_target"#, "deny"),
    ]);
    let mut c = cmd("bash");
    c.is_pipe_target = true;
    assert_eq!(evaluate(&c, &local_pane(), &rules).decision, Decision::Deny);
}

#[test]
fn non_pipe_target_no_match() {
    let rules = compile_rules(&[
        ("pipe to bash", r#"command.name == "bash" && command.is_pipe_target"#, "deny"),
    ]);
    assert_eq!(evaluate(&cmd("bash"), &local_pane(), &rules).decision, Decision::Ask);
}

// --- Glob ---

#[test]
fn glob_matches_wildcard() {
    let rules = compile_rules(&[
        ("prod", r#"glob("*.prod.*", command.effective_host)"#, "deny"),
    ]);
    let mut c = cmd("ls");
    c.effective_host = Effective::Known("web.prod.example.com".into());
    assert_eq!(evaluate(&c, &local_pane(), &rules).decision, Decision::Deny);
}

#[test]
fn glob_no_match() {
    let rules = compile_rules(&[
        ("prod", r#"glob("*.prod.*", command.effective_host)"#, "deny"),
    ]);
    let mut c = cmd("ls");
    c.effective_host = Effective::Known("web.staging.example.com".into());
    assert_eq!(evaluate(&c, &local_pane(), &rules).decision, Decision::Ask);
}

#[test]
fn glob_with_unknown_host() {
    let rules = compile_rules(&[
        ("prod", r#"glob("*.prod.*", command.effective_host)"#, "deny"),
    ]);
    let mut c = cmd("ls");
    c.effective_host = Effective::Unknown;
    // Unknown host → glob returns Unknown → no match
    assert_eq!(evaluate(&c, &local_pane(), &rules).decision, Decision::Ask);
}

// --- Compile errors ---

#[test]
fn compile_error_reported() {
    let tagged = vec![TaggedRule {
        config: RuleConfig {
            description: "bad rule".into(),
            when: "invalid @@@ syntax".into(),
            action: "allow".into(),
            order: 0,
            message: None,
            capture_cwd: None,
        },
        source: RuleSource::Builtin,
        source_index: 0,
    }];
    match compile(&tagged, Decision::Ask) {
        Ok(_) => panic!("expected compile error"),
        Err(err) => assert!(err.contains("bad rule"), "error was: {}", err),
    }
}

#[test]
fn invalid_action_reported() {
    let tagged = vec![TaggedRule {
        config: RuleConfig {
            description: "bad action".into(),
            when: "true".into(),
            action: "invalid".into(),
            order: 0,
            message: None,
            capture_cwd: None,
        },
        source: RuleSource::Builtin,
        source_index: 0,
    }];
    match compile(&tagged, Decision::Ask) {
        Ok(_) => panic!("expected compile error"),
        Err(err) => assert!(err.contains("invalid"), "error was: {}", err),
    }
}

// --- Builtin rules compile ---

#[test]
fn builtin_rules_all_compile() {
    let (default, tagged, _) = load_merged_config(None, None);
    if let Err(err) = compile(&tagged, default) {
        panic!("builtin rules failed to compile: {}", err);
    }
}

// --- Unknown host ---

#[test]
fn unknown_host_equals_returns_unknown() {
    let rules = compile_rules(&[
        ("prod check", r#"command.effective_host == "prod""#, "deny"),
    ]);
    let mut c = cmd("ls");
    c.effective_host = Effective::Unknown;
    assert_eq!(evaluate(&c, &local_pane(), &rules).decision, Decision::Ask);
}

#[test]
fn known_host_equals_matches() {
    let rules = compile_rules(&[
        ("prod check", r#"command.effective_host == "prod""#, "deny"),
    ]);
    let mut c = cmd("ls");
    c.effective_host = Effective::Known("prod".into());
    assert_eq!(evaluate(&c, &local_pane(), &rules).decision, Decision::Deny);
}

#[test]
fn unchanged_host_resolves_to_pane_hostname() {
    let rules = compile_rules(&[
        ("staging", r#"command.effective_host == "staging.example.com""#, "allow"),
    ]);
    assert_eq!(evaluate(&cmd("ls"), &remote_pane("staging.example.com"), &rules).decision, Decision::Allow);
}

#[test]
fn local_pane_host_is_null() {
    let rules = compile_rules(&[
        ("local", r#"command.effective_host == null"#, "allow"),
    ]);
    assert_eq!(evaluate(&cmd("ls"), &local_pane(), &rules).decision, Decision::Allow);
}

// --- path() function ---

#[test]
fn resolve_path_absolute() {
    assert_eq!(resolve_path("/etc/passwd", "/home/user/project", Some("user")), Some("/etc/passwd".into()));
}

#[test]
fn resolve_path_relative() {
    assert_eq!(resolve_path("src/main.rs", "/home/user/project", Some("user")), Some("/home/user/project/src/main.rs".into()));
}

#[test]
fn resolve_path_dotdot_traversal() {
    assert_eq!(resolve_path("../../.ssh/id_rsa", "/home/user/project", Some("user")), Some("/home/.ssh/id_rsa".into()));
}

#[test]
fn resolve_path_dotdot_at_root() {
    assert_eq!(resolve_path("/../../../etc/shadow", "/", Some("user")), Some("/etc/shadow".into()));
}

#[test]
fn resolve_path_tilde() {
    assert_eq!(resolve_path("~/.ssh/id_rsa", "/home/user/project", Some("user")), Some("/home/user/.ssh/id_rsa".into()));
}

#[test]
fn resolve_path_tilde_alone() {
    assert_eq!(resolve_path("~", "/home/user/project", Some("user")), Some("/home/user".into()));
}

#[test]
fn resolve_path_tilde_no_user() {
    assert_eq!(resolve_path("~/.ssh/id_rsa", "/home/user/project", None), None);
}

#[test]
fn resolve_path_dot_current() {
    assert_eq!(resolve_path("./README.md", "/home/user/project", Some("user")), Some("/home/user/project/README.md".into()));
}

#[test]
fn resolve_path_bare_filename() {
    assert_eq!(resolve_path("Cargo.toml", "/home/user/project", Some("user")), Some("/home/user/project/Cargo.toml".into()));
}

#[test]
fn resolve_path_flag_returns_none() {
    assert_eq!(resolve_path("-rf", "/home/user/project", Some("user")), None);
}

#[test]
fn resolve_path_long_flag_returns_none() {
    assert_eq!(resolve_path("--verbose", "/home/user/project", Some("user")), None);
}

#[test]
fn resolve_path_normalizes_dots() {
    assert_eq!(resolve_path("/a/b/./c/../d", "/", Some("user")), Some("/a/b/d".into()));
}

// --- path() in CEL rules (integration) ---

#[test]
fn path_cel_in_project_allowed() {
    let rules = compile_rules(&[
        ("in-project", r#"command.name == "cat" && !command.args.exists(a, !startsWith(a, "-") && !startsWith(path(a), pane.cwd))"#, "allow"),
    ]);
    let c = cmd_with_args("cat", &["src/main.rs"]);
    let pane = PaneContext { cwd: Some("/home/user/project".into()), ..local_pane() };
    assert_eq!(evaluate(&c, &pane, &rules).decision, Decision::Allow);
}

#[test]
fn path_cel_out_of_project_asks() {
    let rules = compile_rules(&[
        ("in-project", r#"command.name == "cat" && !command.args.exists(a, !startsWith(a, "-") && !startsWith(path(a), pane.cwd))"#, "allow"),
    ]);
    let c = cmd_with_args("cat", &["/etc/passwd"]);
    let pane = PaneContext { cwd: Some("/home/user/project".into()), ..local_pane() };
    assert_eq!(evaluate(&c, &pane, &rules).decision, Decision::Ask);
}

#[test]
fn path_cel_traversal_caught() {
    let rules = compile_rules(&[
        ("in-project", r#"command.name == "cat" && !command.args.exists(a, !startsWith(a, "-") && !startsWith(path(a), pane.cwd))"#, "allow"),
    ]);
    let c = cmd_with_args("cat", &["../../.ssh/id_rsa"]);
    let pane = PaneContext { cwd: Some("/home/user/project".into()), ..local_pane() };
    assert_eq!(evaluate(&c, &pane, &rules).decision, Decision::Ask);
}

#[test]
fn path_cel_tilde_caught() {
    let rules = compile_rules(&[
        ("in-project", r#"command.name == "cat" && !command.args.exists(a, !startsWith(a, "-") && !startsWith(path(a), pane.cwd))"#, "allow"),
    ]);
    let c = cmd_with_args("cat", &["~/.ssh/id_ed25519"]);
    let pane = PaneContext { cwd: Some("/home/user/project".into()), user: Some("user".into()), ..local_pane() };
    assert_eq!(evaluate(&c, &pane, &rules).decision, Decision::Ask);
}

#[test]
fn path_cel_flag_args_ignored() {
    let rules = compile_rules(&[
        ("in-project", r#"command.name == "cat" && !command.args.exists(a, !startsWith(a, "-") && !startsWith(path(a), pane.cwd))"#, "allow"),
    ]);
    let c = cmd_with_args("cat", &["-n", "src/main.rs"]);
    let pane = PaneContext { cwd: Some("/home/user/project".into()), ..local_pane() };
    assert_eq!(evaluate(&c, &pane, &rules).decision, Decision::Allow);
}

// --- AST walker: references_command_field ---

#[test]
fn detects_command_effective_user() {
    assert!(references_command_field(&ast_of(r#"command.effective_user == "root""#), "effective_user"));
}

#[test]
fn does_not_detect_parent_effective_user() {
    assert!(!references_command_field(&ast_of(r#"command.parent.effective_user == "root""#), "effective_user"));
}

#[test]
fn detects_effective_user_in_complex_expr() {
    assert!(references_command_field(&ast_of(r#"command.name == "cargo" && command.effective_user == "root""#), "effective_user"));
}

#[test]
fn does_not_detect_unrelated_field() {
    assert!(!references_command_field(&ast_of(r#"command.name == "cargo""#), "effective_user"));
}

#[test]
fn detects_effective_host() {
    assert!(references_command_field(&ast_of(r#"command.effective_host == "prod""#), "effective_host"));
}

// --- Implicit allow constraint ---

#[test]
fn allow_skipped_when_user_differs() {
    let rules = compile_rules(&[
        ("cargo", r#"command.name == "cargo""#, "allow"),
    ]);
    let mut c = cmd("cargo");
    c.effective_user = Effective::Known("root".into());
    // Rule matches CEL but implicit constraint fails (root != jess)
    assert_eq!(evaluate(&c, &local_pane(), &rules).decision, Decision::Ask);
}

#[test]
fn allow_passes_when_user_unchanged() {
    let rules = compile_rules(&[
        ("cargo", r#"command.name == "cargo""#, "allow"),
    ]);
    assert_eq!(evaluate(&cmd("cargo"), &local_pane(), &rules).decision, Decision::Allow);
}

#[test]
fn allow_passes_when_user_same() {
    let rules = compile_rules(&[
        ("cargo", r#"command.name == "cargo""#, "allow"),
    ]);
    let mut c = cmd("cargo");
    c.effective_user = Effective::Known("jess".into()); // same as pane.user
    assert_eq!(evaluate(&c, &local_pane(), &rules).decision, Decision::Allow);
}

#[test]
fn allow_skipped_when_user_unknown() {
    let rules = compile_rules(&[
        ("cargo", r#"command.name == "cargo""#, "allow"),
    ]);
    let mut c = cmd("cargo");
    c.effective_user = Effective::Unknown;
    assert_eq!(evaluate(&c, &local_pane(), &rules).decision, Decision::Ask);
}

#[test]
fn privilege_aware_rule_allows_different_user() {
    let rules = compile_rules(&[
        ("cargo root", r#"command.name == "cargo" && command.effective_user == "root""#, "allow"),
    ]);
    let mut c = cmd("cargo");
    c.effective_user = Effective::Known("root".into());
    // Rule is privilege-aware (references command.effective_user), so constraint skipped
    assert_eq!(evaluate(&c, &local_pane(), &rules).decision, Decision::Allow);
}

#[test]
fn allow_skipped_when_host_differs() {
    let rules = compile_rules(&[
        ("ls", r#"command.name == "ls""#, "allow"),
    ]);
    let mut c = cmd("ls");
    c.effective_host = Effective::Known("server".into());
    assert_eq!(evaluate(&c, &local_pane(), &rules).decision, Decision::Ask);
}

#[test]
fn host_aware_rule_allows_different_host() {
    let rules = compile_rules(&[
        ("ls staging", r#"command.name == "ls" && command.effective_host == "staging""#, "allow"),
    ]);
    let mut c = cmd("ls");
    c.effective_host = Effective::Known("staging".into());
    assert_eq!(evaluate(&c, &local_pane(), &rules).decision, Decision::Allow);
}

#[test]
fn ask_rule_not_affected_by_constraint() {
    // ask/deny rules should NOT have implicit constraint
    let rules = compile_rules(&[
        ("rm", r#"command.name == "rm""#, "ask"),
    ]);
    let mut c = cmd("rm");
    c.effective_user = Effective::Known("root".into());
    assert_eq!(evaluate(&c, &local_pane(), &rules).decision, Decision::Ask);
}

#[test]
fn deny_rule_not_affected_by_constraint() {
    let rules = compile_rules(&[
        ("eval", r#"command.name == "eval""#, "deny"),
    ]);
    let mut c = cmd("eval");
    c.effective_user = Effective::Known("root".into());
    assert_eq!(evaluate(&c, &local_pane(), &rules).decision, Decision::Deny);
}

// --- getopt ---

fn s(val: &str) -> TriVal { TriVal::String(val.to_string()) }
fn args(vals: &[&str]) -> Vec<TriVal> { vals.iter().map(|v| s(v)).collect() }

fn getopt_operands(result: &TriVal) -> Vec<String> {
    if let TriVal::Object(m) = result {
        if let Some(TriVal::List { elements, .. }) = m.get("operands") {
            return elements.iter().filter_map(|e| {
                if let TriVal::String(s) = e { Some(s.clone()) } else { None }
            }).collect();
        }
    }
    panic!("not a getopt result: {:?}", result);
}

fn getopt_flag(result: &TriVal, flag: &str) -> TriVal {
    if let TriVal::Object(m) = result {
        if let Some(TriVal::Object(flags)) = m.get("flags") {
            let exhaustive = matches!(m.get("exhaustive"), Some(TriVal::Bool(true)));
            let absent = if exhaustive { TriVal::Null } else { TriVal::Unknown };
            return flags.get(flag).cloned().unwrap_or(absent);
        }
    }
    panic!("not a getopt result: {:?}", result);
}

fn getopt_terminated(result: &TriVal, flag: &str) -> Vec<Vec<String>> {
    if let TriVal::Object(m) = result {
        if let Some(TriVal::Object(tmap)) = m.get("terminated") {
            if let Some(TriVal::List { elements, .. }) = tmap.get(flag) {
                return elements.iter().map(|block| {
                    if let TriVal::List { elements: items, .. } = block {
                        items.iter().filter_map(|e| {
                            if let TriVal::String(s) = e { Some(s.clone()) } else { None }
                        }).collect()
                    } else {
                        vec![]
                    }
                }).collect();
            }
        }
    }
    vec![]
}

/// The terminators of each flag, as a value.
fn terminators(terminated: &HashMap<String, Vec<String>>) -> TriMap {
    let mut map = TriMap::new();
    for (flag, ends) in terminated {
        let elements = ends.iter().map(|e| s(e)).collect();
        map.insert(flag.clone(), TriVal::List { elements, exhaustive: true });
    }
    map
}

fn no_terminated() -> HashMap<String, Vec<String>> { HashMap::new() }

// Test wrapper: default exhaustive=true (known complete args)
fn getopt(args: &[TriVal], valued: &[String], terminated: &HashMap<String, Vec<String>>) -> TriVal {
    run_getopt(args, valued, &terminators(terminated), true)
}

fn is_exhaustive(result: &TriVal) -> bool {
    if let TriVal::Object(m) = result {
        matches!(m.get("exhaustive"), Some(TriVal::Bool(true)))
    } else {
        panic!("not a getopt result");
    }
}

// --- Core getopt: operands and flags ---

#[test]
fn getopt_no_flags_all_operands() {
    let r = getopt(&args(&["ls", "-la", "/"]), &[], &no_terminated());
    assert_eq!(getopt_operands(&r), vec!["ls", "-la", "/"]);
}

#[test]
fn getopt_empty_args() {
    let r = getopt(&[], &[], &no_terminated());
    assert_eq!(getopt_operands(&r), Vec::<String>::new());
}

#[test]
fn getopt_valued_flag_consumed() {
    let r = getopt(
        &args(&["-n", "10", "cargo", "build"]),
        &["-n".into()],
        &no_terminated(),
    );
    assert_eq!(getopt_operands(&r), vec!["cargo", "build"]);
    assert_eq!(getopt_flag(&r, "-n"), s("10"));
}

#[test]
fn getopt_standalone_flag_skipped() {
    let r = getopt(
        &args(&["-v", "-r", "file.txt"]),
        &[],
        &no_terminated(),
    );
    assert_eq!(getopt_operands(&r), vec!["file.txt"]);
}

#[test]
fn getopt_multiple_valued_flags() {
    let r = getopt(
        &args(&["-u", "root", "-C", "3", "rm", "-rf", "/"]),
        &["-u".into(), "-C".into()],
        &no_terminated(),
    );
    assert_eq!(getopt_operands(&r), vec!["rm", "-rf", "/"]);
    assert_eq!(getopt_flag(&r, "-u"), s("root"));
    assert_eq!(getopt_flag(&r, "-C"), s("3"));
}

#[test]
fn getopt_absent_flag_returns_null() {
    let r = getopt(
        &args(&["cargo", "build"]),
        &["-u".into()],
        &no_terminated(),
    );
    assert!(matches!(getopt_flag(&r, "-u"), TriVal::Null));
}

// --- POSIX stop behavior ---

#[test]
fn getopt_posix_stop_at_first_operand() {
    // After "rm", "-rf" should be an operand, not a flag
    let r = getopt(
        &args(&["-u", "root", "rm", "-rf", "/"]),
        &["-u".into()],
        &no_terminated(),
    );
    assert_eq!(getopt_operands(&r), vec!["rm", "-rf", "/"]);
}

#[test]
fn getopt_flags_after_operand_become_operands() {
    let r = getopt(
        &args(&["cmd", "-n", "10"]),
        &["-n".into()],
        &no_terminated(),
    );
    // cmd is first operand, then -n and 10 are also operands (past POSIX stop)
    assert_eq!(getopt_operands(&r), vec!["cmd", "-n", "10"]);
}

// --- Double dash separator ---

#[test]
fn getopt_double_dash_ends_flags() {
    let r = getopt(
        &args(&["-n", "5", "--", "-rf", "file"]),
        &["-n".into()],
        &no_terminated(),
    );
    assert_eq!(getopt_operands(&r), vec!["-rf", "file"]);
    assert_eq!(getopt_flag(&r, "-n"), s("5"));
}

#[test]
fn getopt_double_dash_only() {
    let r = getopt(&args(&["--"]), &[], &no_terminated());
    assert_eq!(getopt_operands(&r), Vec::<String>::new());
}

#[test]
fn getopt_double_dash_before_anything() {
    let r = getopt(
        &args(&["--", "-n", "10", "cmd"]),
        &["-n".into()],
        &no_terminated(),
    );
    // Everything after -- is operands, -n NOT consumed as flag
    assert_eq!(getopt_operands(&r), vec!["-n", "10", "cmd"]);
    assert!(matches!(getopt_flag(&r, "-n"), TriVal::Null));
}

// --- Valued flag edge cases ---

#[test]
fn getopt_valued_flag_at_end_missing_value() {
    let r = getopt(
        &args(&["-u"]),
        &["-u".into()],
        &no_terminated(),
    );
    assert!(matches!(getopt_flag(&r, "-u"), TriVal::Null));
    assert_eq!(getopt_operands(&r), Vec::<String>::new());
}

#[test]
fn getopt_valued_flag_value_is_dash_prefixed() {
    // -u takes next arg even if it looks like a flag
    let r = getopt(
        &args(&["-u", "-1", "cmd"]),
        &["-u".into()],
        &no_terminated(),
    );
    assert_eq!(getopt_flag(&r, "-u"), s("-1"));
    assert_eq!(getopt_operands(&r), vec!["cmd"]);
}

// --- Auto-unknown (expansion detection) ---

#[test]
fn getopt_flag_value_with_expansion_is_unknown() {
    let r = getopt(
        &args(&["-u", "$(whoami)", "cmd"]),
        &["-u".into()],
        &no_terminated(),
    );
    assert!(matches!(getopt_flag(&r, "-u"), TriVal::Unknown));
    assert_eq!(getopt_operands(&r), vec!["cmd"]);
}

#[test]
fn getopt_operand_with_expansion_is_unknown() {
    let r = getopt(
        &args(&["$HOME/file"]),
        &[],
        &no_terminated(),
    );
    let TriVal::Object(m) = &r else { panic!() };
    let TriVal::List { elements, .. } = m.get("operands").unwrap() else { panic!() };
    assert!(matches!(&elements[0], TriVal::Unknown));
}

#[test]
fn getopt_unknown_trival_in_args_becomes_unknown_operand() {
    let mut a = args(&["-n", "5"]);
    a.push(TriVal::Unknown);
    a.push(s("cmd"));
    let r = getopt(&a, &["-n".into()], &no_terminated());
    let ops = &getopt_operands(&r);
    // Unknown pushed as operand, then "cmd" too (past POSIX stop due to Unknown)
    assert_eq!(ops, &["cmd"]);
    // Check the Unknown is there
    let TriVal::Object(m) = &r else { panic!() };
    let TriVal::List { elements, .. } = m.get("operands").unwrap() else { panic!() };
    assert!(matches!(&elements[0], TriVal::Unknown));
}

// --- Terminated flags ---

#[test]
fn getopt_terminated_single_block() {
    let mut term = HashMap::new();
    term.insert("-exec".into(), vec![";".into(), "+".into()]);
    let r = getopt(
        &args(&[".", "-exec", "grep", "foo", "{}", ";"]),
        &[],
        &term,
    );
    assert_eq!(getopt_terminated(&r, "-exec"), vec![vec!["grep", "foo", "{}"]]);
    assert_eq!(getopt_operands(&r), vec!["."]);
}

#[test]
fn getopt_terminated_multiple_blocks() {
    let mut term = HashMap::new();
    term.insert("-exec".into(), vec![";".into()]);
    let r = getopt(
        &args(&[".", "-exec", "grep", "foo", "{}", ";", "-exec", "rm", "{}", ";"]),
        &[],
        &term,
    );
    let blocks = getopt_terminated(&r, "-exec");
    assert_eq!(blocks.len(), 2);
    assert_eq!(blocks[0], vec!["grep", "foo", "{}"]);
    assert_eq!(blocks[1], vec!["rm", "{}"]);
}

#[test]
fn getopt_terminated_after_operands() {
    // find-style: path operands come before -exec
    let mut term = HashMap::new();
    term.insert("-exec".into(), vec![";".into()]);
    let r = getopt(
        &args(&["/var", "/tmp", "-exec", "ls", "{}", ";"]),
        &[],
        &term,
    );
    assert_eq!(getopt_operands(&r), vec!["/var", "/tmp"]);
    assert_eq!(getopt_terminated(&r, "-exec"), vec![vec!["ls", "{}"]]);
}

#[test]
fn getopt_terminated_unterminated_block() {
    // -exec without terminator — consumes rest of args
    let mut term = HashMap::new();
    term.insert("-exec".into(), vec![";".into()]);
    let r = getopt(
        &args(&["-exec", "grep", "foo"]),
        &[],
        &term,
    );
    assert_eq!(getopt_terminated(&r, "-exec"), vec![vec!["grep", "foo"]]);
}

#[test]
fn getopt_terminated_plus_terminator() {
    let mut term = HashMap::new();
    term.insert("-exec".into(), vec![";".into(), "+".into()]);
    let r = getopt(
        &args(&["-exec", "rm", "{}", "+"]),
        &[],
        &term,
    );
    assert_eq!(getopt_terminated(&r, "-exec"), vec![vec!["rm", "{}"]]);
}

#[test]
fn getopt_mix_valued_and_terminated() {
    let mut term = HashMap::new();
    term.insert("-exec".into(), vec![";".into()]);
    let r = getopt(
        &args(&["-name", "*.rs", "-exec", "wc", "-l", "{}", ";"]),
        &["-name".into()],
        &term,
    );
    assert_eq!(getopt_flag(&r, "-name"), s("*.rs"));
    assert_eq!(getopt_terminated(&r, "-exec"), vec![vec!["wc", "-l", "{}"]]);
}

#[test]
fn getopt_absent_terminated_flag() {
    let mut term = HashMap::new();
    term.insert("-exec".into(), vec![";".into()]);
    let r = getopt(&args(&[".", "-name", "*.rs"]), &[], &term);
    assert!(getopt_terminated(&r, "-exec").is_empty());
}

// --- Real command patterns ---

#[test]
fn getopt_sudo_pattern() {
    let r = getopt(
        &args(&["-C", "3", "-u", "root", "rm", "-rf", "/"]),
        &["-C".into(), "-g".into(), "-r".into(), "-t".into(), "-U".into(), "-D".into(), "-u".into()],
        &no_terminated(),
    );
    assert_eq!(getopt_flag(&r, "-u"), s("root"));
    assert_eq!(getopt_flag(&r, "-C"), s("3"));
    assert_eq!(getopt_operands(&r), vec!["rm", "-rf", "/"]);
}

#[test]
fn getopt_ssh_pattern() {
    let r = getopt(
        &args(&["-p", "22", "-i", "key.pem", "user@host", "ls", "-la"]),
        &["-b".into(), "-c".into(), "-D".into(), "-E".into(), "-e".into(), "-F".into(),
          "-I".into(), "-i".into(), "-J".into(), "-L".into(), "-l".into(), "-m".into(),
          "-O".into(), "-o".into(), "-p".into(), "-Q".into(), "-R".into(), "-S".into(),
          "-W".into(), "-w".into()],
        &no_terminated(),
    );
    assert_eq!(getopt_flag(&r, "-p"), s("22"));
    assert_eq!(getopt_flag(&r, "-i"), s("key.pem"));
    // First operand is host, rest is inner command
    assert_eq!(getopt_operands(&r), vec!["user@host", "ls", "-la"]);
}

#[test]
fn getopt_timeout_pattern() {
    let r = getopt(
        &args(&["-s", "KILL", "30", "curl", "example.com"]),
        &["-s".into(), "--signal".into(), "-k".into(), "--kill-after".into()],
        &no_terminated(),
    );
    assert_eq!(getopt_flag(&r, "-s"), s("KILL"));
    // 30 is first operand (duration), curl + example.com are operands too
    assert_eq!(getopt_operands(&r), vec!["30", "curl", "example.com"]);
}

#[test]
fn getopt_find_pattern() {
    let mut term = HashMap::new();
    term.insert("-exec".into(), vec![";".into(), "+".into()]);
    term.insert("-execdir".into(), vec![";".into(), "+".into()]);
    term.insert("-ok".into(), vec![";".into(), "+".into()]);
    term.insert("-okdir".into(), vec![";".into(), "+".into()]);
    let r = getopt(
        &args(&[".", "-name", "*.rs", "-exec", "grep", "TODO", "{}", ";"]),
        &[],
        &term,
    );
    // . and -name and *.rs are operands (no valued flags defined)
    assert_eq!(getopt_operands(&r), vec![".", "-name", "*.rs"]);
    assert_eq!(getopt_terminated(&r, "-exec"), vec![vec!["grep", "TODO", "{}"]]);
}

#[test]
fn getopt_kubectl_exec_pattern() {
    // kubectl exec -c container mypod -- ls -la
    // Flags before first operand; -- after operand is just another operand (POSIX)
    let r = getopt(
        &args(&["-c", "mycontainer", "mypod", "--", "ls", "-la"]),
        &["-n".into(), "-c".into(), "--namespace".into(), "--container".into()],
        &no_terminated(),
    );
    assert_eq!(getopt_flag(&r, "-c"), s("mycontainer"));
    assert_eq!(getopt_operands(&r), vec!["mypod", "--", "ls", "-la"]);
}

#[test]
fn getopt_kubectl_flags_first_then_double_dash() {
    // When -- comes before any operand, it IS the separator
    let r = getopt(
        &args(&["-c", "mycontainer", "--", "ls", "-la"]),
        &["-c".into()],
        &no_terminated(),
    );
    assert_eq!(getopt_flag(&r, "-c"), s("mycontainer"));
    assert_eq!(getopt_operands(&r), vec!["ls", "-la"]);
}

#[test]
fn getopt_double_dash_after_operand_is_operand() {
    // Per POSIX: after first non-option, getopt never runs again.
    // -- after an operand is just another operand string.
    let r = getopt(
        &args(&["cmd", "--", "-rf"]),
        &[],
        &no_terminated(),
    );
    assert_eq!(getopt_operands(&r), vec!["cmd", "--", "-rf"]);
}

#[test]
fn getopt_xargs_pattern() {
    let r = getopt(
        &args(&["-n", "1", "-I", "{}", "rm", "-v"]),
        &["-d".into(), "-I".into(), "-L".into(), "-n".into(), "-P".into(), "-s".into(), "-E".into()],
        &no_terminated(),
    );
    assert_eq!(getopt_flag(&r, "-n"), s("1"));
    assert_eq!(getopt_flag(&r, "-I"), s("{}"));
    assert_eq!(getopt_operands(&r), vec!["rm", "-v"]);
}

#[test]
fn getopt_env_pattern() {
    // env -u FOO -S "bash -c test" VAR=val cmd arg
    let r = getopt(
        &args(&["-u", "FOO", "cmd", "arg"]),
        &["-u".into(), "-S".into()],
        &no_terminated(),
    );
    assert_eq!(getopt_flag(&r, "-u"), s("FOO"));
    assert_eq!(getopt_operands(&r), vec!["cmd", "arg"]);
}

// --- POSIX conformance: bare dash ---

#[test]
fn getopt_bare_dash_is_operand() {
    // POSIX: "-" is not an option, it's an operand (stdin convention)
    let r = getopt(
        &args(&["-v", "-", "file"]),
        &[],
        &no_terminated(),
    );
    // -v is a standalone flag, "-" is first operand (triggers POSIX stop),
    // "file" is also an operand
    assert_eq!(getopt_operands(&r), vec!["-", "file"]);
}

#[test]
fn getopt_bare_dash_alone() {
    let r = getopt(&args(&["-"]), &[], &no_terminated());
    assert_eq!(getopt_operands(&r), vec!["-"]);
}

#[test]
fn getopt_bare_dash_with_valued_flags() {
    // "-" should NOT be consumed as a flag value
    let r = getopt(
        &args(&["-o", "-", "file"]),
        &["-o".into()],
        &no_terminated(),
    );
    // -o takes "-" as its value (option-argument can be anything per Guideline 7)
    assert_eq!(getopt_flag(&r, "-o"), s("-"));
    assert_eq!(getopt_operands(&r), vec!["file"]);
}

// --- POSIX conformance: grouped short options ---

#[test]
fn getopt_grouped_boolean_flags() {
    // -abc = -a -b -c (all standalone)
    let r = getopt(
        &args(&["-abc", "file"]),
        &[],
        &no_terminated(),
    );
    assert_eq!(getopt_operands(&r), vec!["file"]);
}

#[test]
fn getopt_grouped_with_valued_last() {
    // -au root = -a (standalone) then -u root (valued, last char)
    let r = getopt(
        &args(&["-au", "root", "rm", "-rf"]),
        &["-u".into()],
        &no_terminated(),
    );
    assert_eq!(getopt_flag(&r, "-u"), s("root"));
    assert_eq!(getopt_operands(&r), vec!["rm", "-rf"]);
}

#[test]
fn getopt_grouped_with_valued_attached() {
    // -uroot = -u with attached value "root"
    let r = getopt(
        &args(&["-uroot", "rm"]),
        &["-u".into()],
        &no_terminated(),
    );
    assert_eq!(getopt_flag(&r, "-u"), s("root"));
    assert_eq!(getopt_operands(&r), vec!["rm"]);
}

#[test]
fn getopt_grouped_valued_mid_group() {
    // -iuroot = -i (standalone), -u with attached value "root"
    let r = getopt(
        &args(&["-iuroot", "cmd"]),
        &["-u".into()],
        &no_terminated(),
    );
    assert_eq!(getopt_flag(&r, "-u"), s("root"));
    assert_eq!(getopt_operands(&r), vec!["cmd"]);
}

#[test]
fn getopt_sudo_grouped_iu() {
    // sudo -iu root rm — real-world pattern
    // -i standalone, -u valued (last char), "root" is value
    let r = getopt(
        &args(&["-iu", "root", "rm", "-rf", "/"]),
        &["-C".into(), "-g".into(), "-r".into(), "-t".into(),
          "-U".into(), "-D".into(), "-u".into()],
        &no_terminated(),
    );
    assert_eq!(getopt_flag(&r, "-u"), s("root"));
    assert_eq!(getopt_operands(&r), vec!["rm", "-rf", "/"]);
}

// --- POSIX conformance: attached option-arguments ---

#[test]
fn getopt_attached_value_short() {
    // -p22 = -p with value "22"
    let r = getopt(
        &args(&["-p22", "host", "ls"]),
        &["-p".into()],
        &no_terminated(),
    );
    assert_eq!(getopt_flag(&r, "-p"), s("22"));
    assert_eq!(getopt_operands(&r), vec!["host", "ls"]);
}

#[test]
fn getopt_ssh_attached_port() {
    // ssh -p22 -i key host cmd — real-world pattern
    let r = getopt(
        &args(&["-p22", "-i", "key.pem", "user@host", "ls"]),
        &["-p".into(), "-i".into()],
        &no_terminated(),
    );
    assert_eq!(getopt_flag(&r, "-p"), s("22"));
    assert_eq!(getopt_flag(&r, "-i"), s("key.pem"));
    assert_eq!(getopt_operands(&r), vec!["user@host", "ls"]);
}

// --- POSIX conformance: long options with = ---

#[test]
fn getopt_long_option_with_equals() {
    // --signal=KILL — value attached with =
    let r = getopt(
        &args(&["--signal=KILL", "30", "cmd"]),
        &["--signal".into()],
        &no_terminated(),
    );
    assert_eq!(getopt_flag(&r, "--signal"), s("KILL"));
    assert_eq!(getopt_operands(&r), vec!["30", "cmd"]);
}

#[test]
fn getopt_long_option_separate() {
    // --signal KILL — value in next arg
    let r = getopt(
        &args(&["--signal", "KILL", "30", "cmd"]),
        &["--signal".into()],
        &no_terminated(),
    );
    assert_eq!(getopt_flag(&r, "--signal"), s("KILL"));
    assert_eq!(getopt_operands(&r), vec!["30", "cmd"]);
}

#[test]
fn getopt_long_option_equals_unknown_value() {
    // Unknown long option with = is not in valued, skip it
    let r = getopt(
        &args(&["--unknown=val", "cmd"]),
        &[],
        &no_terminated(),
    );
    assert_eq!(getopt_operands(&r), vec!["cmd"]);
}

#[test]
fn getopt_long_option_equals_with_expansion() {
    let r = getopt(
        &args(&["--signal=$(trap)", "cmd"]),
        &["--signal".into()],
        &no_terminated(),
    );
    assert!(matches!(getopt_flag(&r, "--signal"), TriVal::Unknown));
    assert_eq!(getopt_operands(&r), vec!["cmd"]);
}

// --- POSIX example equivalences ---
// These are all equivalent:
// cmd -ao arg path path
// cmd -a -o arg path path
// cmd -o arg -a path path
// cmd -a -o arg -- path path
// cmd -a -oarg path path
// cmd -aoarg path path

#[test]
fn getopt_spec_example_separate() {
    let r = getopt(
        &args(&["-a", "-o", "arg", "path1", "path2"]),
        &["-o".into()],
        &no_terminated(),
    );
    assert_eq!(getopt_flag(&r, "-o"), s("arg"));
    assert_eq!(getopt_operands(&r), vec!["path1", "path2"]);
}

#[test]
fn getopt_spec_example_grouped_separate_value() {
    // -ao arg = -a standalone, -o takes "arg" (last char, separate)
    let r = getopt(
        &args(&["-ao", "arg", "path1", "path2"]),
        &["-o".into()],
        &no_terminated(),
    );
    assert_eq!(getopt_flag(&r, "-o"), s("arg"));
    assert_eq!(getopt_operands(&r), vec!["path1", "path2"]);
}

#[test]
fn getopt_spec_example_reordered() {
    // -o arg -a path path — option order doesn't matter,
    // -a is still a flag (before any operand)
    let r = getopt(
        &args(&["-o", "arg", "-a", "path1", "path2"]),
        &["-o".into()],
        &no_terminated(),
    );
    assert_eq!(getopt_flag(&r, "-o"), s("arg"));
    assert_eq!(getopt_operands(&r), vec!["path1", "path2"]);
}

#[test]
fn getopt_spec_example_double_dash() {
    // -a -o arg -- path path
    let r = getopt(
        &args(&["-a", "-o", "arg", "--", "path1", "path2"]),
        &["-o".into()],
        &no_terminated(),
    );
    assert_eq!(getopt_flag(&r, "-o"), s("arg"));
    assert_eq!(getopt_operands(&r), vec!["path1", "path2"]);
}

#[test]
fn getopt_spec_example_attached() {
    // -a -oarg path path
    let r = getopt(
        &args(&["-a", "-oarg", "path1", "path2"]),
        &["-o".into()],
        &no_terminated(),
    );
    assert_eq!(getopt_flag(&r, "-o"), s("arg"));
    assert_eq!(getopt_operands(&r), vec!["path1", "path2"]);
}

#[test]
fn getopt_spec_example_grouped_attached() {
    // -aoarg path path = -a standalone, -o with attached "arg"
    let r = getopt(
        &args(&["-aoarg", "path1", "path2"]),
        &["-o".into()],
        &no_terminated(),
    );
    assert_eq!(getopt_flag(&r, "-o"), s("arg"));
    assert_eq!(getopt_operands(&r), vec!["path1", "path2"]);
}

// --- Exhaustiveness / three-valued logic ---

#[test]
fn getopt_known_flags_only_is_exhaustive() {
    let r = getopt(
        &args(&["-u", "root", "cmd"]),
        &["-u".into()],
        &no_terminated(),
    );
    assert!(is_exhaustive(&r));
}

#[test]
fn getopt_unknown_short_flag_degrades_exhaustive() {
    // -x is not in valued list — we don't know if it takes a value
    let r = getopt(
        &args(&["-x", "cmd"]),
        &[],
        &no_terminated(),
    );
    assert!(!is_exhaustive(&r));
}

#[test]
fn getopt_unknown_long_flag_degrades_exhaustive() {
    let r = getopt(
        &args(&["--unknown", "cmd"]),
        &[],
        &no_terminated(),
    );
    assert!(!is_exhaustive(&r));
}

#[test]
fn getopt_unknown_long_flag_with_equals_stays_exhaustive() {
    // --unknown=val is self-contained, doesn't affect operand boundaries
    let r = getopt(
        &args(&["--unknown=val", "cmd"]),
        &[],
        &no_terminated(),
    );
    assert!(is_exhaustive(&r));
}

#[test]
fn getopt_unknown_trival_degrades_exhaustive() {
    let mut a = args(&["-u", "root"]);
    a.push(TriVal::Unknown);
    a.push(s("cmd"));
    let r = getopt(&a, &["-u".into()], &no_terminated());
    assert!(!is_exhaustive(&r));
}

#[test]
fn getopt_non_exhaustive_input_propagates() {
    let r = run_getopt(
        &args(&["-u", "root", "cmd"]),
        &["-u".into()],
        &TriMap::new(),
        false, // input is non-exhaustive
    );
    assert!(!is_exhaustive(&r));
    // Absent flag returns Unknown, not Null
    assert!(matches!(getopt_flag(&r, "-z"), TriVal::Unknown));
}

#[test]
fn getopt_exhaustive_absent_flag_is_null() {
    let r = getopt(
        &args(&["-u", "root", "cmd"]),
        &["-u".into()],
        &no_terminated(),
    );
    assert!(matches!(getopt_flag(&r, "-z"), TriVal::Null));
}

#[test]
fn getopt_non_exhaustive_absent_flag_is_unknown() {
    // -x is unknown, so result is non-exhaustive
    let r = getopt(
        &args(&["-x", "-u", "root", "cmd"]),
        &["-u".into()],
        &no_terminated(),
    );
    assert!(!is_exhaustive(&r));
    // -z not seen, but args are non-exhaustive, so absence is uncertain
    assert!(matches!(getopt_flag(&r, "-z"), TriVal::Unknown));
}

#[test]
fn getopt_all_known_flags_is_exhaustive() {
    // -v is standalone (not valued), but it's still "known" in the sense
    // that we skip it. However, we DON'T actually know it's standalone —
    // we assume all non-valued flags are standalone.
    // So any unknown flag degrades exhaustiveness.
    let r = getopt(
        &args(&["-v", "cmd"]),
        &[], // -v not in valued list = unknown
        &no_terminated(),
    );
    // -v is unknown — we can't confirm it doesn't take a value
    assert!(!is_exhaustive(&r));
}

#[test]
fn getopt_unknown_flag_in_a_group_is_non_exhaustive() {
    let r = getopt(&args(&["-iu", "root", "cmd"]), &["-u".into()], &no_terminated());
    assert!(matches!(getopt_flag(&r, "-u"), TriVal::String(s) if s == "root"));
    assert_eq!(getopt_operands(&r), vec!["cmd"]);
    assert!(!is_exhaustive(&r));
    // Attached value
    let r = getopt(&args(&["-iuroot", "cmd"]), &["-u".into()], &no_terminated());
    assert!(matches!(getopt_flag(&r, "-u"), TriVal::String(s) if s == "root"));
    assert!(!is_exhaustive(&r));
    // Nothing before the option that takes a value
    let r = getopt(&args(&["-uroot", "cmd"]), &["-u".into()], &no_terminated());
    assert!(matches!(getopt_flag(&r, "-u"), TriVal::String(s) if s == "root"));
    assert!(is_exhaustive(&r));
}
