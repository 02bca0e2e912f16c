//! Policies as users write them.

use tmux_mcp::policy::config::{
    compile_config, config_changed, merged_project_dirs, parse_decision, project_config_path_always,
    FileStamp, GetoptConfig, PolicyConfig, RuleConfig, RuleSource, TaggedRule, TaggedWrapper,
    WrapperConfig,
};
use tmux_mcp::policy::builtins::eval_glob;
use tmux_mcp::policy::value::TriVal;
use tmux_mcp::policy::wrappers::compile_wrappers;
use tmux_mcp::policy::parse::CommandInfo;
use tmux_mcp::policy::rules::{compile, evaluate as evaluate_command};
use tmux_mcp::policy::cel::parse_cel;
use tmux_mcp::policy::syntax::check_expression;
use tmux_mcp::policy::{evaluate, Decision, PaneContext, PolicyResult};

fn rule(description: &str, when: &str, action: &str) -> RuleConfig {
    RuleConfig {
        description: description.to_string(),
        when: when.to_string(),
        action: action.to_string(),
        order: -1,
        message: None,
        capture_cwd: None,
    }
}

fn config(rules: Vec<RuleConfig>, wrappers: Vec<WrapperConfig>) -> Option<PolicyConfig> {
    Some(PolicyConfig { default: None, rules, wrappers, project_dirs: None })
}

fn pane() -> PaneContext {
    PaneContext {
        hostname: None,
        cwd: Some("/home/user/project".to_string()),
        foreground: Some("bash".to_string()),
        user: Some("user".to_string()),
    }
}

fn judge(rules: Vec<RuleConfig>, command: &str) -> PolicyResult {
    evaluate(command, &pane(), &compile_config(config(rules, vec![]), None))
}

/// Whether an expression holds for a command.
fn holds(when: &str, command: &str) -> bool {
    judge(vec![rule("r", when, "deny")], command).rule == "r"
}

#[test]
fn production_hosts_are_blocked() {
    let mut block = rule(
        "block production hosts",
        "pane.hostname != null && glob(\"prod-*\", pane.hostname)",
        "deny",
    );
    block.message = Some("production hosts are read-only".to_string());
    let policy = compile_config(config(vec![block], vec![]), None);
    let mut p = pane();
    assert_eq!(evaluate("echo hi", &p, &policy).decision, Decision::Allow);
    p.hostname = Some("prod-7".to_string());
    let r = evaluate("echo hi", &p, &policy);
    assert_eq!(r.decision, Decision::Deny);
    assert_eq!(r.rule, "block production hosts: production hosts are read-only");
}

fn my_sudo() -> WrapperConfig {
    WrapperConfig {
        name: "my-sudo".to_string(),
        when: "command.name == \"my-sudo\"".to_string(),
        getopt: Some(GetoptConfig::Short("u:".to_string())),
        getopt_gnu: None,
        inner: "command.getopt.operands".to_string(),
        capture_user: Some("or(command.getopt.value(\"u\"), \"root\")".to_string()),
        capture_host: None,
        skip_wrapper: true,
        args_complete: true,
        changes_cwd: false,
        order: 0,
    }
}

#[test]
fn own_wrapper_is_seen_through() {
    let rules = vec![rule(
        "rm as admin",
        "command.name == \"rm\" && command.effective_user == \"admin\"",
        "deny",
    )];
    let policy = compile_config(config(rules, vec![my_sudo()]), None);
    assert_eq!(evaluate("my-sudo -u admin rm -rf /", &pane(), &policy).rule, "rm as admin");
    assert_ne!(evaluate("my-sudo rm x", &pane(), &policy).rule, "rm as admin");
}

#[test]
fn own_wrapper_keeps_allow_rules_to_the_user() {
    let policy = compile_config(config(vec![], vec![my_sudo()]), None);
    assert_eq!(evaluate("echo hi", &pane(), &policy).decision, Decision::Allow);
    assert_eq!(evaluate("my-sudo echo hi", &pane(), &policy).decision, Decision::Ask);
    assert_eq!(evaluate("my-sudo -u user echo hi", &pane(), &policy).decision, Decision::Allow);
}

#[test]
fn captured_directory_is_passed_on() {
    let rules = || {
        let mut cd = rule("cd", "command.name == \"cd\"", "allow");
        cd.capture_cwd = Some("path(command.args[0])".to_string());
        let here = rule(
            "remove outside",
            "command.name == \"rm\" && !startsWith(pane.cwd, \"/home/user\")",
            "deny",
        );
        vec![cd, here]
    };
    assert_eq!(judge(rules(), "cd /tmp && rm x").rule, "remove outside");
    assert_ne!(judge(rules(), "cd sub && rm x").rule, "remove outside");
    assert_eq!(judge(rules(), "cd .. && cd ../../tmp && rm x").rule, "remove outside");
    assert_ne!(judge(rules(), "rm x && cd /tmp").rule, "remove outside");
}

#[test]
fn captured_directory_that_is_not_known() {
    let mut cd = rule("cd", "command.name == \"cd\"", "allow");
    cd.capture_cwd = Some("path(command.args[0])".to_string());
    let r = judge(vec![cd], "cd $DIR && cat notes");
    assert_eq!(r.decision, Decision::Ask);
}

#[test]
fn project_stays_where_the_pane_is() {
    let cd = || {
        let mut cd = rule("cd", "command.name == \"cd\"", "allow");
        cd.capture_cwd = Some("path(command.args[0])".to_string());
        vec![cd]
    };
    assert_eq!(judge(cd(), "cd sub && cat notes").decision, Decision::Allow);
    assert_eq!(judge(cd(), "cd /etc && cat passwd").decision, Decision::Ask);
    assert_eq!(judge(cd(), "cd /etc && cat /home/user/project/notes").decision, Decision::Allow);
    assert_eq!(judge(cd(), "cd $DIR && cat /home/user/project/notes").decision, Decision::Allow);
    assert_eq!(judge(cd(), "cd $DIR && echo hi").decision, Decision::Allow);
}

#[test]
fn malformed_capture_leaves_nothing_allowed() {
    let mut cd = rule("cd", "command.name == \"cd\"", "allow");
    cd.capture_cwd = Some("path(".to_string());
    assert_eq!(judge(vec![cd], "echo hi").decision, Decision::Ask);
}

#[test]
fn project_directories() {
    let mut c = config(vec![], vec![]);
    c.as_mut().unwrap().project_dirs = Some(vec![".".to_string(), "../shared".to_string()]);
    let policy = compile_config(c, None);
    assert_eq!(evaluate("cat ../shared/x", &pane(), &policy).decision, Decision::Allow);
    assert_eq!(evaluate("cat ../other/x", &pane(), &policy).decision, Decision::Ask);
    let plain = compile_config(None, None);
    assert_eq!(evaluate("cat ../shared/x", &pane(), &plain).decision, Decision::Ask);
}

#[test]
fn project_directories_of_the_project_win() {
    let with = |d: &str| {
        Some(PolicyConfig {
            default: None,
            rules: vec![],
            wrappers: vec![],
            project_dirs: Some(vec![d.to_string()]),
        })
    };
    assert_eq!(merged_project_dirs(&with("a"), &with("b")), vec!["b"]);
    assert_eq!(merged_project_dirs(&with("a"), &None), vec!["a"]);
    assert_eq!(merged_project_dirs(&None, &None), vec!["."]);
}

#[test]
fn list_functions() {
    assert!(holds("slice(command.args, 1)[0] == \"b\" && slice(command.args, 1)[1] == \"c\"", "x a b c"));
    assert!(holds("take_until(command.args, [\"+\"])[0] == \"a\"", "x a + b"));
    assert!(holds("take_until(command.args, [\"+\"])[1] == null", "x a + b"));
    assert!(holds("split_at(command.args, [\"--\"])[1][0] == \"b\"", "x a -- b"));
    assert!(holds("(command.args + [\"z\"])[1] == \"z\"", "x a"));
    assert!(holds("1 + 2 == 3", "x"));
    assert!(holds("command.args.all(a, startsWith(a, \"-\"))", "x -a -b"));
    assert!(!holds("command.args.all(a, startsWith(a, \"-\"))", "x -a b"));
    assert!(holds("command.args.map(a, a == \"b\")[1]", "x a b"));
    assert!(holds("command.args.filter(a, a != \"a\")[0] == \"b\"", "x a b"));
    assert!(holds("command.args.exists(a, a == \"b\")", "x a b"));
    assert!(holds("\"b\" in command.args", "x a b"));
}

#[test]
fn text_functions() {
    assert!(holds("contains(command.args[0], \"bc\")", "x abcd"));
    assert!(!holds("contains(command.args[0], \"cb\")", "x abcd"));
    assert!(holds("rsplit(command.args[0], \"@\", 2)[1] == \"host\"", "x me@host"));
    assert!(holds("rsplit(command.args[0], \"@\", 2)[0] == null", "x host"));
    assert!(holds("has_short_flag(command.args, \"f\")", "x -rf"));
    assert!(holds("or(null, \"a\") == \"a\"", "x"));
    assert!(holds("glob(\"*.rs\", command.args[0])", "x main.rs"));
    assert!(!holds("glob(\"*.rs\", command.args[0])", "x main.c"));
}

#[test]
fn glob_patterns() {
    let matches = |pattern: &str, text: &str| {
        let r = eval_glob(&TriVal::String(pattern.to_string()), &TriVal::String(text.to_string()));
        matches!(r, TriVal::Bool(true))
    };
    assert!(matches("*.prod.*", "db.prod.example"));
    assert!(!matches("*.prod.*", "db.test.example"));
    assert!(matches("{a,b}?", "b1"));
    assert!(!matches("[ab", "a"));
    assert!(matches("a*b", "a\nb"));
    assert!(matches("**/..", "a/.."));
    assert!(matches("\u{e9}*", "\u{e9}t\u{e9}"));
    let nested = |n: usize| format!("{}a{}", "{".repeat(n), "}".repeat(n));
    assert!(matches(&nested(3), "a"));
    assert!(!matches(&nested(260), "a"));
    assert!(!matches(&"?".repeat(1_000_000), "a"));
}

#[test]
fn compiled_wrappers_keep_their_names() {
    let tagged = |name: &str, inner: &str| TaggedWrapper {
        config: WrapperConfig {
            name: name.to_string(),
            when: "command.name == \"x\"".to_string(),
            getopt: None,
            getopt_gnu: None,
            inner: inner.to_string(),
            capture_user: None,
            capture_host: None,
            skip_wrapper: true,
            args_complete: true,
            changes_cwd: false,
            order: 0,
        },
        source: RuleSource::Home,
        source_index: 0,
    };
    let r = compile_wrappers(&[
        tagged("one", "command.args"),
        tagged("broken", "((("),
        tagged("two", "command.args"),
    ]);
    let names: Vec<&str> = r.wrappers.iter().map(|w| w.name.as_str()).collect();
    assert_eq!(names, vec!["one", "two"]);
}

#[test]
fn conditions() {
    assert!(holds("(command.name == \"x\" ? 1 : 2) == 1", "x"));
    assert!(holds("(command.name == \"y\" ? 1 : 2) == 2", "x"));
    assert!(holds("getopt(command.args, \"u:\").value(\"-u\") == \"me\"", "x -u me y"));
    assert!(holds("getopt(command.args, \"u:\").value(\"u\") == \"me\"", "x -ume y"));
}

#[test]
fn order_puts_rules_behind() {
    let mut late = rule("late", "true", "deny");
    late.order = 1;
    assert_eq!(judge(vec![late], "echo hi").decision, Decision::Allow);
    assert_eq!(judge(vec![rule("early", "true", "deny")], "echo hi").decision, Decision::Deny);
}

#[test]
fn malformed_rules_leave_nothing_allowed() {
    assert_eq!(judge(vec![rule("bad", "((", "allow")], "echo hi").decision, Decision::Ask);
    assert_eq!(judge(vec![rule("bad", "true", "maybe")], "echo hi").decision, Decision::Ask);
}

#[test]
fn decisions_by_name() {
    assert_eq!(parse_decision("allow"), Decision::Allow);
    assert_eq!(parse_decision("deny"), Decision::Deny);
    assert_eq!(parse_decision("ask"), Decision::Ask);
    assert_eq!(parse_decision("other"), Decision::Ask);
}

#[test]
fn path_of_a_configuration() {
    assert_eq!(
        project_config_path_always("/home/user/project", ".settings"),
        "/home/user/project/.settings/tmux-mcp.toml"
    );
    assert_eq!(project_config_path_always("/", "s"), "/s/tmux-mcp.toml");
    assert_eq!(project_config_path_always("", "s"), "s/tmux-mcp.toml");
}

#[test]
fn configuration_files_change() {
    let stamp = |p: &str, m: u128| Some(FileStamp { path: p.to_string(), modified: m });
    assert!(!config_changed(None, None, &None, None));
    assert!(config_changed(None, Some(1), &None, None));
    assert!(config_changed(Some(1), Some(2), &None, None));
    assert!(config_changed(Some(1), None, &None, None));
    assert!(!config_changed(Some(1), Some(1), &stamp("a", 5), None));
    assert!(!config_changed(Some(1), Some(1), &stamp("a", 5), Some(("a", Some(5)))));
    assert!(config_changed(Some(1), Some(1), &stamp("a", 5), Some(("a", Some(6)))));
    assert!(config_changed(Some(1), Some(1), &stamp("a", 5), Some(("b", Some(5)))));
    assert!(config_changed(Some(1), Some(1), &stamp("a", 5), Some(("a", None))));
    assert!(config_changed(None, None, &None, Some(("a", Some(5)))));
}

#[test]
fn the_worst_verdict_counts() {
    assert_eq!(judge(vec![], "echo a && curl x").decision, Decision::Ask);
    assert_eq!(judge(vec![], "curl x; eval y; echo z").decision, Decision::Deny);
    assert_eq!(judge(vec![], "echo a | cat").decision, Decision::Allow);
}

#[test]
fn expressions_are_recognised() {
    for text in [
        "a", ".a", "a.b.c", "a.b(c, d)[0].e", "!a", "!!a && -b < - 1", "!-1", "--a", "a - -1",
        "(a)", "[]", "[a, b,]", "[,]", "{}", "{a: b, \"c\": d,}", "{,}", "m.T{f: 1, `g-h`: 2}",
        "a ? b : c ? d : e", "{a ? b : c : d}", "1.5e-3 + .5 + 1e9 + 0x1F + 0x1fu + 7u", "1 .a",
        "'it\\'s' + \"\\x41\\u00e9\\U0001F600\\101\"", "'''a\n'b'''", "r'\\d+'", "br\"x\"", "b'x'",
        "a in b || c == d != e >= f <= g > h * i / j % k", "a // comment\n && b", "a.`b-c/d`",
        "\"\"", "'\u{1F600}'", "x.exists(y, y)", "f()", "a\t\r\n\u{c}", "true && null == false",
    ] {
        assert!(check_expression(text), "{:?}", text);
    }
}

#[test]
fn other_texts_are_no_expressions() {
    for text in [
        "", " ", "((", "a &&", "&& a", "a b", "a..b", "a.", "a.1", "f(a,)", "f(,)", "[a b]", "{a}",
        "{a: }", "(a", "a)", "[a)", "!", "-!a", "!-a", "a ? b", "a ? b ? c : d : e", "a : b", "'a",
        "\"a\nb\"", "'\\q'", "'\\x4'", "1a", "0xg", "a = b", "a & b", "@", "a.true", "a.`b`(c)",
        "invalid @@@ syntax", "''''", "`", "a.``", "5{a: 1}", "[?]", "m{1: 2}",
    ] {
        assert!(!check_expression(text), "{:?}", text);
    }
}

#[test]
fn malformed_expressions_are_told() {
    assert_eq!(parse_cel("command.name ==").unwrap_err(), "syntax error");
    assert!(parse_cel("command.name == \"ls\"").is_ok());
    assert!(parse_cel("a.?b").unwrap_err().contains("unsupported syntax"));
    assert!(parse_cel("99999999999999999999").unwrap_err().contains("invalid int literal"));
}

/// Everything that is recognised can be handed to the parser.
#[test]
fn recognised_expressions_are_parsed() {
    for text in [
        "a", ".a", "a.b.c", "a.b(c, d)[0].e", "!a", "!!a && -b < - 1", "!-1", "--a", "a - -1",
        "(a)", "[]", "[a, b,]", "[,]", "{}", "{a: b, \"c\": d,}", "{,}", "m.T{f: 1, `g-h`: 2}",
        "a ? b : c ? d : e", "{a ? b : c : d}", "1.5e-3 + .5 + 1e9 + 0x1F + 0x1fu + 7u", "1 .a",
        "'it\\'s' + \"\\x41\\u00e9\\U0001F600\\101\"", "r'\\d+'", "b'x'",
        "a in b || c == d != e >= f <= g > h * i / j % k", "a // comment\n && b", "a.`b-c/d`",
        "\"\"", "'\u{1F600}'", "x.exists(y, y)", "f()", "a\t\r\n\u{c}", "true && null == false",
    ] {
        assert!(parse_cel(text).is_ok(), "{:?}: {:?}", text, parse_cel(text));
    }
}

#[test]
fn known_answers_stand_when_arguments_go_on() {
    let tagged = |when: &str| TaggedRule {
        config: rule("r", when, "deny"),
        source: RuleSource::Home,
        source_index: 0,
    };
    let decide = |when: &str, args: &[&str], args_complete: bool| {
        let set = compile(&[tagged(when)], Decision::Ask).unwrap();
        let command = CommandInfo {
            args: args.iter().map(|a| a.to_string()).collect(),
            args_complete,
            ..CommandInfo::simple("rm")
        };
        evaluate_command(&command, &pane(), &set).decision
    };
    let found = "command.args.exists(a, a == \"-v\")";
    assert_eq!(decide(found, &["-v"], false), Decision::Deny);
    assert_eq!(decide(found, &["-v", "x"], true), Decision::Deny);
    let none = "!command.args.exists(a, a == \"-f\")";
    assert_eq!(decide(none, &["-v"], false), Decision::Ask);
    assert_eq!(decide(none, &["-v"], true), Decision::Deny);
    let missing = "command.args[1] == null";
    assert_eq!(decide(missing, &["-v"], false), Decision::Deny);
    assert_eq!(decide(missing, &["-v", "x"], true), Decision::Ask);
}

#[test]
fn options_of_a_command_without_any_are_null() {
    assert!(holds("command.getopt == null", "ls -la"));
    assert!(!holds("command.getopt != null", "ls -la"));
    // The inner command of a wrapper has none, the wrapper has
    assert!(holds("command.name == \"ls\" && command.getopt == null", "sudo -u bob ls"));
}

#[test]
fn options_of_a_wrapper_are_seen_by_rules() {
    let wrapper = |getopt: Option<&str>| WrapperConfig {
        name: "my-env".to_string(),
        when: "command.name == \"my-env\"".to_string(),
        getopt: getopt.map(|o| GetoptConfig::Short(o.to_string())),
        getopt_gnu: None,
        inner: if getopt.is_some() { "command.getopt.operands" } else { "command.args" }.to_string(),
        capture_user: None,
        capture_host: None,
        skip_wrapper: false,
        args_complete: true,
        changes_cwd: false,
        order: -1,
    };
    let decide = |when: &str, getopt: Option<&str>, command: &str| {
        let rules = vec![rule("r", when, "deny")];
        let set = compile_config(config(rules, vec![wrapper(getopt)]), None);
        evaluate(command, &pane(), &set).decision == Decision::Deny
    };
    let value = "command.name == \"my-env\" && command.getopt.value(\"u\") == \"bob\"";
    assert!(decide(value, Some("u:"), "my-env -u bob ls"));
    assert!(!decide(value, Some("u:"), "my-env -u eve ls"));
    // What further arguments hold is not known, nor is what the options come to
    assert!(!decide(value, Some("u:"), "my-env -u bob ls $X"));
    let parent = "command.name == \"ls\" && command.parent.getopt.value(\"u\") == \"bob\"";
    assert!(decide(parent, Some("u:"), "my-env -u bob ls"));
    let none = "command.name == \"my-env\" && command.getopt == null";
    assert!(decide(none, None, "my-env ls"));
    assert!(!decide(none, Some("u:"), "my-env ls"));
    // In the wrapper's own expressions too
    let mut bare = wrapper(None);
    bare.when = "command.name == \"my-env\" && command.getopt == null".to_string();
    let rules = vec![rule("r", "command.name == \"ls\" && command.parent != null", "deny")];
    let set = compile_config(config(rules, vec![bare]), None);
    assert_eq!(evaluate("my-env ls", &pane(), &set).decision, Decision::Deny);
}
