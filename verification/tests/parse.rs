//! Extraction of commands.

use tmux_mcp::policy::parse::{parse_command, CommandInfo, Effective, InnerExtraction};
use tmux_mcp::shell::{
    bad_descriptor, detach, parse_script, word_has_expansion, CommandKind, CompoundForm,
    PipeSequence, Place, Script, ShellToken,
};

// --- Shell text ---

fn parse_program(input: &str) -> Script {
    parse_script(input).unwrap_or_else(|e| panic!("Failed to parse '{}': {}", input, e))
}

fn first_pipeline(script: &Script) -> &PipeSequence {
    &script.lists[0].items[0].chain.first
}

#[test]
fn brush_parses_simple_command() {
    let prog = parse_program("ls -la");
    let pipeline = first_pipeline(&prog);
    assert_eq!(pipeline.seq.len(), 1);
    match &pipeline.seq[0].kind {
        CommandKind::Simple(s) => assert_eq!(s.word_or_name.as_ref().unwrap(), "ls"),
        _ => panic!("expected a simple command"),
    }
}

#[test]
fn brush_parses_pipeline() {
    let prog = parse_program("ls | grep foo");
    assert_eq!(first_pipeline(&prog).seq.len(), 2);
}

#[test]
fn brush_parses_and_or_list() {
    let prog = parse_program("a && b || c");
    let and_or = &prog.lists[0].items[0].chain;
    assert_eq!(and_or.additional.len(), 2);
    assert!(and_or.additional[0].is_and);
    assert!(!and_or.additional[1].is_and);
}

#[test]
fn brush_parses_command_substitution_in_word() {
    assert!(word_has_expansion("$(date)"));
}

#[test]
fn brush_parses_subshell() {
    let prog = parse_program("(ls)");
    assert!(matches!(&first_pipeline(&prog).seq[0].kind, CommandKind::Compound(CompoundForm::Subshell(_))));
}

#[test]
fn brush_parses_brace_group() {
    let prog = parse_program("{ ls; }");
    assert!(matches!(&first_pipeline(&prog).seq[0].kind, CommandKind::Compound(CompoundForm::BraceGroup(_))));
}

#[test]
fn brush_parses_if_clause() {
    let prog = parse_program("if true; then echo yes; fi");
    assert!(matches!(&first_pipeline(&prog).seq[0].kind, CommandKind::Compound(CompoundForm::If { .. })));
}

#[test]
fn brush_parses_for_clause() {
    let prog = parse_program("for x in a b; do echo $x; done");
    assert!(matches!(&first_pipeline(&prog).seq[0].kind, CommandKind::Compound(CompoundForm::For(_))));
}

#[test]
fn brush_parses_quoted_string_not_split() {
    let prog = parse_program("echo 'hello | world'");
    assert_eq!(first_pipeline(&prog).seq.len(), 1);
}

#[test]
fn brush_rejects_unclosed_quote() {
    assert!(parse_script("echo 'hello").is_err());
}

#[test]
fn brush_detects_expansion_in_word() {
    assert!(word_has_expansion("$VAR"));
}

#[test]
fn brush_detects_command_sub_in_word() {
    assert!(word_has_expansion("$(cmd)"));
}

// --- Helper to find command by name in flat list ---

fn find_cmd<'a>(cmds: &'a [CommandInfo], name: &str) -> &'a CommandInfo {
    cmds.iter().find(|c| c.name == name)
        .unwrap_or_else(|| panic!("command '{}' not found in {:?}", name, cmds.iter().map(|c| &c.name).collect::<Vec<_>>()))
}

// --- Simple commands ---

#[test]
fn simple_command_extracts_name_and_args() {
    let cmds = parse_command("ls -la /tmp").unwrap();
    assert_eq!(cmds.len(), 1);
    assert_eq!(cmds[0].name, "ls");
    assert_eq!(cmds[0].args, vec!["-la", "/tmp"]);
    assert!(cmds[0].args_complete);
    assert!(cmds[0].parent.is_none());
}

#[test]
fn command_with_no_args() {
    let cmds = parse_command("pwd").unwrap();
    assert_eq!(cmds[0].name, "pwd");
    assert!(cmds[0].args.is_empty());
}

// --- Pipelines ---

#[test]
fn pipeline_extracts_each_segment() {
    let cmds = parse_command("ls | grep foo").unwrap();
    assert!(cmds.iter().any(|c| c.name == "ls"));
    assert!(cmds.iter().any(|c| c.name == "grep"));
}

#[test]
fn pipeline_marks_pipe_target() {
    let cmds = parse_command("ls | grep foo").unwrap();
    let ls = find_cmd(&cmds, "ls");
    let grep = find_cmd(&cmds, "grep");
    assert!(!ls.is_pipe_target);
    assert!(grep.is_pipe_target);
}

#[test]
fn pipeline_three_segments() {
    let cmds = parse_command("ls | grep foo | wc -l").unwrap();
    assert!(cmds.iter().any(|c| c.name == "wc"));
}

#[test]
fn quoted_pipe_is_not_pipeline() {
    let cmds = parse_command("echo 'hello | world'").unwrap();
    assert_eq!(cmds.iter().filter(|c| c.parent.is_none()).count(), 1);
}

// --- Logical operators ---

#[test]
fn and_list_extracts_both() {
    let cmds = parse_command("ls && echo done").unwrap();
    assert!(cmds.iter().any(|c| c.name == "ls"));
    assert!(cmds.iter().any(|c| c.name == "echo"));
}

#[test]
fn or_list_extracts_both() {
    let cmds = parse_command("ls || echo failed").unwrap();
    assert_eq!(cmds.iter().filter(|c| c.parent.is_none()).count(), 2);
}

// --- Command substitution ---

#[test]
fn arg_with_command_substitution() {
    let cmds = parse_command("echo $(date)").unwrap();
    assert!(cmds.iter().any(|c| c.name == "echo"));
    assert!(cmds.iter().any(|c| c.name == "date"));
}

#[test]
fn command_substitution_sets_args_incomplete() {
    let cmds = parse_command("rm $(find . -name '*.tmp')").unwrap();
    let rm = find_cmd(&cmds, "rm");
    assert!(!rm.args_complete);
}

#[test]
fn expansion_in_arg_marks_incomplete() {
    let cmds = parse_command("rm -rf $DIR").unwrap();
    assert!(!cmds[0].args_complete);
}

#[test]
fn literal_args_are_complete() {
    let cmds = parse_command("rm -rf /tmp").unwrap();
    assert!(cmds[0].args_complete);
}

// --- Compound commands ---

#[test]
fn subshell_extracts_inner() {
    let cmds = parse_command("(ls && pwd)").unwrap();
    assert!(cmds.iter().any(|c| c.name == "ls"));
    assert!(cmds.iter().any(|c| c.name == "pwd"));
}

#[test]
fn brace_group_extracts_inner() {
    let cmds = parse_command("{ ls; pwd; }").unwrap();
    assert!(cmds.iter().any(|c| c.name == "ls"));
    assert!(cmds.iter().any(|c| c.name == "pwd"));
}

// --- Wrappers: parent is preserved, inner extracted ---

#[test]
fn command_builtin_parent() {
    let cmds = parse_command("command ls -la").unwrap();
    let ls = find_cmd(&cmds, "ls");
    assert_eq!(ls.args, vec!["-la"]);
    assert_eq!(ls.parent.as_ref().unwrap().name, "command");
}

#[test]
fn sudo_parent_with_root() {
    let cmds = parse_command("sudo rm foo").unwrap();
    let rm = find_cmd(&cmds, "rm");
    assert_eq!(rm.parent.as_ref().unwrap().name, "sudo");
    assert_eq!(rm.effective_user, Effective::Known("root".to_string()));
}

#[test]
fn sudo_u_parent_with_user() {
    let cmds = parse_command("sudo -u postgres psql").unwrap();
    let psql = find_cmd(&cmds, "psql");
    assert_eq!(psql.parent.as_ref().unwrap().name, "sudo");
    assert_eq!(psql.effective_user, Effective::Known("postgres".to_string()));
}

#[test]
fn no_wrapper_no_parent() {
    let cmds = parse_command("ls").unwrap();
    assert!(cmds[0].parent.is_none());
    assert_eq!(cmds[0].effective_user, Effective::Unchanged);
}

#[test]
fn env_parent() {
    let cmds = parse_command("env FOO=bar cargo test").unwrap();
    let cargo = find_cmd(&cmds, "cargo");
    assert_eq!(cargo.parent.as_ref().unwrap().name, "env");
    assert_eq!(cargo.args, vec!["test"]);
}

#[test]
fn env_multiple_vars() {
    let cmds = parse_command("env A=1 B=2 make").unwrap();
    let make = find_cmd(&cmds, "make");
    assert_eq!(make.parent.as_ref().unwrap().name, "env");
}

#[test]
fn xargs_parent_with_incomplete_args() {
    let cmds = parse_command("xargs cat").unwrap();
    let cat = find_cmd(&cmds, "cat");
    assert_eq!(cat.parent.as_ref().unwrap().name, "xargs");
    assert!(!cat.args_complete);
}

#[test]
fn xargs_inner_has_known_and_unknown_args() {
    let cmds = parse_command("xargs rm -v").unwrap();
    let rm = find_cmd(&cmds, "rm");
    assert_eq!(rm.args, vec!["-v"]);
    assert!(!rm.args_complete);
}

#[test]
fn ssh_parent_with_host() {
    let cmds = parse_command("ssh prod-server ls").unwrap();
    let ls = find_cmd(&cmds, "ls");
    assert_eq!(ls.parent.as_ref().unwrap().name, "ssh");
    assert_eq!(ls.effective_host, Effective::Known("prod-server".to_string()));
}

#[test]
fn ssh_user_at_host() {
    let cmds = parse_command("ssh user@10.0.0.1 ls").unwrap();
    let ls = find_cmd(&cmds, "ls");
    assert_eq!(ls.effective_host, Effective::Known("10.0.0.1".to_string()));
}

#[test]
fn ssh_with_flags() {
    let cmds = parse_command("ssh -i key.pem user@host ls -la").unwrap();
    let ls = find_cmd(&cmds, "ls");
    assert_eq!(ls.parent.as_ref().unwrap().name, "ssh");
    assert_eq!(ls.effective_host, Effective::Known("host".to_string()));
}

#[test]
fn kubectl_exec_pod() {
    let cmds = parse_command("kubectl exec mypod -- ls").unwrap();
    let ls = find_cmd(&cmds, "ls");
    assert_eq!(ls.parent.as_ref().unwrap().name, "kubectl");
    assert_eq!(ls.effective_host, Effective::Known("mypod".to_string()));
}

#[test]
fn kubectl_exec_with_namespace() {
    let cmds = parse_command("kubectl exec -n prod mypod -- ls").unwrap();
    let ls = find_cmd(&cmds, "ls");
    assert_eq!(ls.effective_host, Effective::Known("mypod".to_string()));
}

#[test]
fn podman_exec_container() {
    let cmds = parse_command("podman exec myapp ls").unwrap();
    let ls = find_cmd(&cmds, "ls");
    assert_eq!(ls.parent.as_ref().unwrap().name, "podman");
    assert_eq!(ls.effective_host, Effective::Known("myapp".to_string()));
}

#[test]
fn docker_exec_container() {
    let cmds = parse_command("docker exec mycontainer ls").unwrap();
    let ls = find_cmd(&cmds, "ls");
    assert_eq!(ls.effective_host, Effective::Known("mycontainer".to_string()));
}

// --- Chained wrappers ---

#[test]
fn sudo_env_cargo_chain() {
    let cmds = parse_command("sudo env FOO=bar cargo test").unwrap();
    // All three appear in flat list
    assert!(cmds.iter().any(|c| c.name == "sudo"));
    assert!(cmds.iter().any(|c| c.name == "env"));
    assert!(cmds.iter().any(|c| c.name == "cargo"));
    // cargo's parent is env, env's parent is sudo
    let cargo = find_cmd(&cmds, "cargo");
    let env_parent = cargo.parent.as_ref().unwrap();
    assert_eq!(env_parent.name, "env");
    let sudo_parent = env_parent.parent.as_ref().unwrap();
    assert_eq!(sudo_parent.name, "sudo");
    // effective_user propagates
    assert_eq!(cargo.effective_user, Effective::Known("root".to_string()));
}

// --- String eval ---

#[test]
fn sh_c_literal_reparses() {
    let cmds = parse_command("sh -c 'echo hello'").unwrap();
    assert!(cmds.iter().any(|c| c.name == "sh"));
    let echo = find_cmd(&cmds, "echo");
    assert_eq!(echo.parent.as_ref().unwrap().name, "sh");
}

// --- find -exec ---

#[test]
fn find_exec_extracts_command() {
    let cmds = parse_command("find . -exec grep foo {} ;").unwrap();
    assert!(cmds.iter().any(|c| c.name == "find"));
    let grep = find_cmd(&cmds, "grep");
    assert_eq!(grep.parent.as_ref().unwrap().name, "find");
    assert!(!grep.args_complete);
}

#[test]
fn find_exec_extracts_args() {
    let cmds = parse_command("find . -exec grep -r TODO {} ;").unwrap();
    let grep = find_cmd(&cmds, "grep");
    assert_eq!(grep.args, vec!["-r", "TODO", "{}"]);
}

#[test]
fn find_multiple_exec_blocks() {
    // \; is needed — bare ; is a shell command separator
    let cmds = parse_command("find . -exec chmod 644 {} \\; -exec chown root {} \\;").unwrap();
    let names: Vec<&str> = cmds.iter().map(|c| c.name.as_str()).collect();
    assert!(cmds.iter().any(|c| c.name == "chmod"), "chmod not found in {:?}", names);
    assert!(cmds.iter().any(|c| c.name == "chown"), "chown not found in {:?}", names);
    let chmod = find_cmd(&cmds, "chmod");
    assert!(chmod.args.contains(&"644".to_string()));
    let chown = find_cmd(&cmds, "chown");
    assert!(chown.args.contains(&"root".to_string()));
}

#[test]
fn find_exec_with_plus_terminator() {
    let cmds = parse_command("find . -exec rm {} +").unwrap();
    let rm = find_cmd(&cmds, "rm");
    assert_eq!(rm.args, vec!["{}"]);
    assert!(!rm.args_complete);
}

#[test]
fn find_execdir_extracts() {
    let cmds = parse_command("find /tmp -execdir rm {} ;").unwrap();
    let rm = find_cmd(&cmds, "rm");
    assert_eq!(rm.parent.as_ref().unwrap().name, "find");
}

#[test]
fn find_exec_sh_c_recursive() {
    // -exec sh -c '...' should recursively extract via shell-eval wrapper
    let cmds = parse_command("find . -exec sh -c 'echo hello' ;").unwrap();
    assert!(cmds.iter().any(|c| c.name == "sh"));
    assert!(cmds.iter().any(|c| c.name == "echo"));
}

#[test]
fn find_exec_with_predicates() {
    // Predicates before -exec shouldn't interfere
    let cmds = parse_command("find /var -name '*.log' -mtime +30 -exec rm {} ;").unwrap();
    let rm = find_cmd(&cmds, "rm");
    assert_eq!(rm.parent.as_ref().unwrap().name, "find");
}

#[test]
fn find_without_exec_no_extraction() {
    let cmds = parse_command("find . -name '*.rs' -type f").unwrap();
    assert_eq!(cmds.len(), 1);
    assert_eq!(cmds[0].name, "find");
    assert_eq!(cmds[0].inner, InnerExtraction::NotExtracted);
}

// --- Flag-skip wrappers ---

#[test]
fn nice_extracts_inner() {
    let cmds = parse_command("nice -n 10 cargo build").unwrap();
    let cargo = find_cmd(&cmds, "cargo");
    assert_eq!(cargo.parent.as_ref().unwrap().name, "nice");
    assert_eq!(cargo.args, vec!["build"]);
}

#[test]
fn nohup_extracts_inner() {
    let cmds = parse_command("nohup make").unwrap();
    let make = find_cmd(&cmds, "make");
    assert_eq!(make.parent.as_ref().unwrap().name, "nohup");
}

#[test]
fn timeout_extracts_inner() {
    let cmds = parse_command("timeout 30 curl example.com").unwrap();
    let curl = find_cmd(&cmds, "curl");
    assert_eq!(curl.parent.as_ref().unwrap().name, "timeout");
}

// --- InnerExtraction ---

#[test]
fn wrapper_is_transparent() {
    let cmds = parse_command("sudo rm -rf /").unwrap();
    assert_eq!(find_cmd(&cmds, "sudo").inner, InnerExtraction::Transparent);
}

#[test]
fn leaf_is_none() {
    let cmds = parse_command("sudo rm -rf /").unwrap();
    assert_eq!(find_cmd(&cmds, "rm").inner, InnerExtraction::NotExtracted);
}

#[test]
fn non_wrapper_is_none() {
    let cmds = parse_command("ls -la").unwrap();
    assert_eq!(cmds[0].inner, InnerExtraction::NotExtracted);
}

#[test]
fn wrapper_no_inner_is_none() {
    let cmds = parse_command("sudo -i").unwrap();
    assert_eq!(find_cmd(&cmds, "sudo").inner, InnerExtraction::NotExtracted);
}

#[test]
fn env_is_evaluated() {
    let cmds = parse_command("env FOO=bar cargo test").unwrap();
    assert_eq!(find_cmd(&cmds, "env").inner, InnerExtraction::Evaluated);
}

#[test]
fn chained_wrappers_inner_types() {
    let cmds = parse_command("env FOO=bar sudo cargo test").unwrap();
    assert_eq!(find_cmd(&cmds, "env").inner, InnerExtraction::Evaluated);
    assert_eq!(find_cmd(&cmds, "sudo").inner, InnerExtraction::Transparent);
}

// --- Parse failures ---

#[test]
fn empty_string_parses_as_empty() {
    assert!(parse_command("").unwrap().is_empty());
}

#[test]
fn unclosed_quote_fails() {
    assert!(parse_command("echo 'hello").is_err());
}

// --- time is a keyword ---

#[test]
fn time_is_keyword() {
    let cmds = parse_command("time make -j4").unwrap();
    assert_eq!(cmds[0].name, "make"); // brush-parser handles time as keyword
}

// --- Descriptor numbers ---

#[test]
fn descriptor_out_of_range_is_a_word() {
    for (text, name, args) in [
        ("99999999999>f", "99999999999", vec![]),
        ("echo 2147483648>f", "echo", vec!["2147483648"]),
        ("#a\\\n99999999999>f", "99999999999", vec![]),
        ("echo a 99999999999>>f", "echo", vec!["a", "99999999999"]),
        ("cat <<A 99999999999>f\nx\nA\n", "cat", vec!["99999999999"]),
    ] {
        let cmds = parse_command(text).unwrap();
        let c = find_cmd(&cmds, name);
        assert_eq!(c.args, args, "{}", text);
        assert_eq!(c.redirects.len(), 1, "{}", text);
        assert_eq!(c.redirects[0].target, "f", "{}", text);
        assert!(c.redirects[0].is_write, "{}", text);
    }
    assert!(parse_script("\\\\\n99999999999>f").is_ok());
}

#[test]
fn long_digits_in_arithmetic_and_tests() {
    for text in [
        "((99999999999>n))",
        "(( a + 99999999999<<2 ))",
        "for ((i=0; 99999999999>i; i++)); do ls; done",
        "[[ 99999999999>5 ]]",
        "[[ 99999999999<x && -n y ]] && ls",
    ] {
        assert!(parse_script(text).is_ok(), "{}", text);
    }
    let cmds = parse_command("((99999999999>n)) && rm x").unwrap();
    assert_eq!(find_cmd(&cmds, "rm").args, vec!["x"]);
}

#[test]
fn error_beside_long_digits_is_the_parsers_own() {
    assert_eq!(
        parse_script("echo 99999999999>f )").unwrap_err(),
        parse_script("echo 9999999999a>f )").unwrap_err(),
    );
}

#[test]
fn long_digits_elsewhere_are_text() {
    for text in [
        "echo 'at 9999999999>x'",
        "echo \"9999999999>x\"",
        "ls # 9999999999>x",
        "cat <<A\n9999999999>x\nA\n",
        "echo 9999999999 >x",
        "echo a9999999999>x",
        "echo \\9999999999>x",
        "echo 2147483647>f",
        "echo 1>f",
    ] {
        assert!(parse_script(text).is_ok(), "{}", text);
    }
}

#[test]
fn unfinished_text_stays_an_error() {
    let e = parse_script("99999999999>'f").unwrap_err();
    assert!(e.contains("detected near"), "{}", e);
}

fn place(index: usize) -> Place {
    Place { index, line: 1, column: index + 1 }
}

fn token(text: &str, is_operator: bool, start: usize, end: usize) -> ShellToken {
    ShellToken { text: text.to_string(), is_operator, start: place(start), end: place(end) }
}

#[test]
fn descriptor_stands_directly_before_its_operator() {
    let number = || token("2147483648", false, 0, 10);
    assert!(bad_descriptor(&[number(), token(">", true, 10, 11)]));
    assert!(bad_descriptor(&[token("a", false, 0, 0), number(), token("<<<", true, 10, 13)]));
    assert!(bad_descriptor(&[token("", false, 3, 3), token("<", true, 3, 4)]));
    assert!(!bad_descriptor(&[number(), token(">", true, 11, 12)]));
    assert!(!bad_descriptor(&[number(), token("|", true, 10, 11)]));
    assert!(!bad_descriptor(&[number(), token(">", false, 10, 11)]));
    assert!(!bad_descriptor(&[token("2147483647", false, 0, 10), token(">", true, 10, 11)]));
    assert!(!bad_descriptor(&[token("21474836a8", false, 0, 10), token(">", true, 10, 11)]));
    assert!(!bad_descriptor(&[number()]));
    assert!(!bad_descriptor(&[]));
}

#[test]
fn detached_number_keeps_all_but_its_end() {
    let apart = detach(vec![
        token("2147483648", false, 0, 10),
        token(">", true, 10, 11),
        token("1", false, 11, 12),
        token(">", true, 12, 13),
        token("", false, 0, 0),
        token("<", true, 0, 1),
    ]);
    assert!(!bad_descriptor(&apart));
    let ends: Vec<usize> = apart.iter().map(|t| t.end.index).collect();
    assert_eq!(ends, vec![9, 11, 12, 13, 1, 1]);
    let starts: Vec<usize> = apart.iter().map(|t| t.start.index).collect();
    assert_eq!(starts, vec![0, 10, 11, 12, 0, 0]);
    let texts: Vec<&str> = apart.iter().map(|t| t.text.as_str()).collect();
    assert_eq!(texts, vec!["2147483648", ">", "1", ">", "", "<"]);
    assert_eq!((apart[0].end.line, apart[0].end.column), (1, 11));
}
