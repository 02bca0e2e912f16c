//! Lints on commands.

use tmux_mcp::lint::{extract_line_count, lint_cd_to_cwd, lint_command_run};

// --- Tail ---

#[test]
fn tail_pipe_rejected() {
    let err = lint_command_run("ls | tail -5").unwrap_err();
    assert!(err.message.contains("tail=5"), "{}", err.message);
}

#[test]
fn tail_pipe_with_n_flag() {
    let err = lint_command_run("cat file | tail -n 10").unwrap_err();
    assert!(err.message.contains("tail=10"), "{}", err.message);
}

#[test]
fn tail_without_pipe_allowed() {
    assert!(lint_command_run("tail -f /var/log/syslog").is_ok());
}

#[test]
fn tail_mid_pipeline_allowed() {
    assert!(lint_command_run("ls | tail -5 | sort").is_ok());
}

// --- Head ---

#[test]
fn head_pipe_rejected() {
    let err = lint_command_run("ls | head -20").unwrap_err();
    assert!(err.message.contains("head=20"), "{}", err.message);
}

#[test]
fn head_without_pipe_allowed() {
    assert!(lint_command_run("head -20 file.txt").is_ok());
}

#[test]
fn head_mid_pipeline_allowed() {
    assert!(lint_command_run("ls | head -20 | sort").is_ok());
    assert!(lint_command_run("cat file | head -5 | wc -l").is_ok());
}

// --- Grep ---

#[test]
fn grep_pipe_rejected() {
    let err = lint_command_run("ps aux | grep python").unwrap_err();
    assert!(err.message.contains("search=\"python\""), "{}", err.message);
}

#[test]
fn grep_pipe_with_flags() {
    let err = lint_command_run("make | grep -i error").unwrap_err();
    assert!(err.message.contains("search=\"error\""), "{}", err.message);
}

#[test]
fn grep_pipe_with_quoted_pattern() {
    let err = lint_command_run("cat file | egrep 'foo|bar'").unwrap_err();
    assert!(err.message.contains("search=\"foo|bar\""), "{}", err.message);
}

#[test]
fn rg_pipe_rejected() {
    assert!(lint_command_run("ls -la | rg pattern").is_err());
}

#[test]
fn grep_without_pipe_allowed() {
    assert!(lint_command_run("grep pattern file.txt").is_ok());
    assert!(lint_command_run("rg pattern .").is_ok());
}

#[test]
fn grep_mid_pipeline_allowed() {
    assert!(lint_command_run("ps aux | grep python | wc -l").is_ok());
}

// --- Stderr ---

#[test]
fn stderr_redirect_rejected() {
    let err = lint_command_run("make 2>&1").unwrap_err();
    assert!(err.message.contains("command_run(command=\"make\")"), "{}", err.message);
}

#[test]
fn stderr_redirect_piped_allowed() {
    assert!(lint_command_run("make 2>&1 | sort").is_ok());
}

// --- Tee ---

#[test]
fn tee_pipe_rejected() {
    let err = lint_command_run("ls | tee out.txt").unwrap_err();
    assert!(err.message.contains("command_run(command=\"ls\")"), "{}", err.message);
}

#[test]
fn tee_without_pipe_allowed() {
    assert!(lint_command_run("tee output.log").is_ok());
}

#[test]
fn tee_mid_pipeline_allowed() {
    assert!(lint_command_run("make | tee build.log | wc -l").is_ok());
}

// --- Trailing echo $? ---

#[test]
fn trailing_echo_exit_code_rejected() {
    let err = lint_command_run("helmfile -e localsync; echo \"HELMFILE_EXIT=$?\"").unwrap_err();
    assert!(err.message.contains("command_run(command=\"helmfile -e localsync\")"), "{}", err.message);
}

#[test]
fn trailing_echo_bare_status_rejected() {
    let err = lint_command_run("make; echo $?").unwrap_err();
    assert!(err.message.contains("command_run(command=\"make\")"), "{}", err.message);
}

#[test]
fn trailing_echo_after_and_rejected() {
    let err = lint_command_run("cargo test && echo \"rc=$?\"").unwrap_err();
    assert!(err.message.contains("command_run(command=\"cargo test\")"), "{}", err.message);
}

#[test]
fn trailing_echo_with_midcommand_stderr_redirect_rejected() {
    // The 2>&1 is mid-string (not trailing) so the stderr lint misses it;
    // this lint still catches the redundant exit-code echo.
    let err = lint_command_run("helmfile -e localsync 2>&1; echo \"HELMFILE_EXIT=$?\"").unwrap_err();
    assert!(err.message.contains("echo $?"), "{}", err.message);
}

#[test]
fn trailing_printf_status_rejected() {
    assert!(lint_command_run("make; printf 'exit %d\\n' $?").is_err());
}

#[test]
fn trailing_echo_braced_status_rejected() {
    assert!(lint_command_run("make; echo \"${?}\"").is_err());
}

#[test]
fn bare_echo_status_nudges_command_history() {
    // No preceding command — the agent is re-running just to read a prior
    // result; point it at command_history instead.
    let err = lint_command_run("echo $?").unwrap_err();
    assert!(err.message.contains("command_history"), "{}", err.message);
}

#[test]
fn bare_printf_status_nudges_command_history() {
    let err = lint_command_run("printf '%d\\n' $?").unwrap_err();
    assert!(err.message.contains("command_history"), "{}", err.message);
}

#[test]
fn bare_echo_status_redirected_allowed() {
    // Even standalone, persisting the code to a file is legitimate.
    assert!(lint_command_run("echo $? > /tmp/rc").is_ok());
}

#[test]
fn echo_status_redirected_allowed() {
    // Persisting the exit code to a file is a legitimate use.
    assert!(lint_command_run("make; echo $? > /tmp/rc").is_ok());
}

#[test]
fn echo_without_status_allowed() {
    assert!(lint_command_run("make; echo done").is_ok());
}

#[test]
fn mid_sequence_echo_status_allowed() {
    // $? echoed mid-script, with real work after — not a trailing report.
    assert!(lint_command_run("make; echo $?; deploy").is_ok());
}

#[test]
fn status_in_condition_allowed() {
    // Branching on $? — trailing command is `echo ok`, which has no $?.
    assert!(lint_command_run("make; [ $? -eq 0 ] && echo ok").is_ok());
}

#[test]
fn status_assignment_allowed() {
    // Capturing into a variable for later use is fine.
    assert!(lint_command_run("make; RC=$?; echo $RC").is_ok());
}

// --- Background ---

#[test]
fn background_trailing_ampersand_rejected() {
    let err = lint_command_run("sleep 60 &").unwrap_err();
    assert!(err.message.contains("separate pane"), "{}", err.message);
}

#[test]
fn background_no_space_rejected() {
    assert!(lint_command_run("make&").is_err());
}

#[test]
fn background_trailing_whitespace_rejected() {
    assert!(lint_command_run("cargo build &  ").is_err());
}

#[test]
fn logical_and_allowed() {
    assert!(lint_command_run("make && make install").is_ok());
}

#[test]
fn redirect_ampersand_allowed() {
    assert!(lint_command_run("make &> /dev/null").is_ok());
    assert!(lint_command_run("make &>> log.txt").is_ok());
}

#[test]
fn ampersand_in_url_allowed() {
    assert!(lint_command_run("curl 'http://example.com?a=1&b=2'").is_ok());
}

// --- Valid ---

#[test]
fn valid_commands() {
    assert!(lint_command_run("ls -la").is_ok());
    assert!(lint_command_run("cargo build").is_ok());
    assert!(lint_command_run("git status").is_ok());
    assert!(lint_command_run("make -j8").is_ok());
}

// --- cd to cwd ---

#[test]
fn cd_to_cwd_absolute_rejected() {
    let err = lint_cd_to_cwd("cd /home/user/project && cargo test", "/home/user/project").unwrap_err();
    assert!(err.message.contains("command_run(command=\"cargo test\")"), "{}", err.message);
}

#[test]
fn cd_to_cwd_trailing_slash_rejected() {
    assert!(lint_cd_to_cwd("cd /home/user/project/ && cargo test", "/home/user/project").is_err());
}

#[test]
fn cd_to_cwd_dot_rejected() {
    assert!(lint_cd_to_cwd("cd . && make", "/any/dir").is_err());
}

#[test]
fn cd_to_cwd_semicolon_rejected() {
    assert!(lint_cd_to_cwd("cd /proj && make", "/proj").is_err());
}

#[test]
fn cd_to_different_dir_allowed() {
    assert!(lint_cd_to_cwd("cd /tmp && ls", "/home/user/project").is_ok());
}

#[test]
fn cd_to_subdir_allowed() {
    assert!(lint_cd_to_cwd("cd src && cargo test", "/home/user/project").is_ok());
}

#[test]
fn cd_standalone_allowed() {
    assert!(lint_cd_to_cwd("cd /home/user/project", "/home/user/project").is_ok());
}

#[test]
fn cd_cwd_trailing_slash_normalized() {
    assert!(lint_cd_to_cwd("cd /proj && ls", "/proj/").is_err());
}

// --- Helpers ---

#[test]
fn extract_line_count_variants() {
    assert_eq!(extract_line_count("-5"), Some(5));
    assert_eq!(extract_line_count("-n 10"), Some(10));
    assert_eq!(extract_line_count("-n10"), Some(10));
    assert_eq!(extract_line_count(""), None);
}
