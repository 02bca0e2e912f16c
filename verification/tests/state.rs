//! The state of a pane.

use tmux_mcp::pane::state::{Activity, PaneState, MAX_COMMAND_HISTORY};

#[test]
fn new_state_is_empty() {
    let s = PaneState::new();
    assert!(s.commands.is_empty());
    assert_eq!(s.activity, Activity::Unknown);
    assert!(s.cwd.is_none());
    assert!(s.user.is_none());
    assert!(s.hostname.is_none());
}

#[test]
fn push_and_retrieve_commands() {
    let mut s = PaneState::new();
    let id1 = s.push_command_start("ls".into());
    let cmd = s.command_by_id_mut(id1).unwrap();
    cmd.output = "file1\nfile2".into();
    cmd.exit_code = Some(0);
    cmd.completed = true;

    let id2 = s.push_command_start("pwd".into());
    let cmd = s.command_by_id_mut(id2).unwrap();
    cmd.output = "/home/user".into();
    cmd.exit_code = Some(0);
    cmd.completed = true;

    let recent = s.recent_commands(10);
    assert_eq!(recent.len(), 2);
    assert_eq!(recent[0].command, "pwd"); // newest first
    assert_eq!(recent[1].command, "ls");
    assert!(recent[0].id > recent[1].id);
}

#[test]
fn command_history_capped() {
    let mut s = PaneState::new();
    for i in 0..150 {
        let id = s.push_command_start(format!("cmd{}", i));
        let cmd = s.command_by_id_mut(id).unwrap();
        cmd.completed = true;
    }
    assert_eq!(s.commands.len(), MAX_COMMAND_HISTORY);
    assert_eq!(s.commands.front().unwrap().command, "cmd149");
}

// --- OSC 7 parsing: all combinations of user/host/path ---

#[test]
fn osc7_full() {
    let mut s = PaneState::new();
    s.update_cwd_from_osc7("file://alice@myhost/home/alice");
    assert_eq!(s.user.as_deref(), Some("alice"));
    assert_eq!(s.hostname.as_deref(), Some("myhost"));
    assert_eq!(s.cwd.as_deref(), Some("/home/alice"));
}

#[test]
fn osc7_user_localhost() {
    let mut s = PaneState::new();
    s.update_cwd_from_osc7("file://alice@localhost/tmp");
    assert_eq!(s.user.as_deref(), Some("alice"));
    assert!(s.hostname.is_none());
    assert_eq!(s.cwd.as_deref(), Some("/tmp"));
}

#[test]
fn osc7_user_127001() {
    let mut s = PaneState::new();
    s.update_cwd_from_osc7("file://alice@127.0.0.1/tmp");
    assert_eq!(s.user.as_deref(), Some("alice"));
    assert!(s.hostname.is_none());
    assert_eq!(s.cwd.as_deref(), Some("/tmp"));
}

#[test]
fn osc7_user_ipv6_loopback() {
    let mut s = PaneState::new();
    s.update_cwd_from_osc7("file://alice@::1/tmp");
    assert_eq!(s.user.as_deref(), Some("alice"));
    assert!(s.hostname.is_none());
    assert_eq!(s.cwd.as_deref(), Some("/tmp"));
}

#[test]
fn osc7_user_empty_host() {
    let mut s = PaneState::new();
    s.update_cwd_from_osc7("file://alice@/tmp");
    assert_eq!(s.user.as_deref(), Some("alice"));
    assert!(s.hostname.is_none());
    assert_eq!(s.cwd.as_deref(), Some("/tmp"));
}

#[test]
fn osc7_host_no_user() {
    let mut s = PaneState::new();
    s.update_cwd_from_osc7("file://myhost/home/user");
    assert!(s.user.is_none());
    assert_eq!(s.hostname.as_deref(), Some("myhost"));
    assert_eq!(s.cwd.as_deref(), Some("/home/user"));
}

#[test]
fn osc7_localhost_no_user() {
    let mut s = PaneState::new();
    s.update_cwd_from_osc7("file://localhost/tmp");
    assert!(s.user.is_none());
    assert!(s.hostname.is_none());
    assert_eq!(s.cwd.as_deref(), Some("/tmp"));
}

#[test]
fn osc7_empty_authority() {
    let mut s = PaneState::new();
    s.update_cwd_from_osc7("file:///home/user");
    assert!(s.user.is_none());
    assert!(s.hostname.is_none());
    assert_eq!(s.cwd.as_deref(), Some("/home/user"));
}

#[test]
fn osc7_no_path() {
    let mut s = PaneState::new();
    s.update_cwd_from_osc7("file://alice@myhost");
    assert_eq!(s.user.as_deref(), Some("alice"));
    assert_eq!(s.hostname.as_deref(), Some("myhost"));
    assert!(s.cwd.is_none());
}

#[test]
fn osc7_only_user_no_path() {
    let mut s = PaneState::new();
    s.update_cwd_from_osc7("file://alice@");
    assert_eq!(s.user.as_deref(), Some("alice"));
    assert!(s.hostname.is_none());
    assert!(s.cwd.is_none());
}

#[test]
fn osc7_empty_user_at_host() {
    let mut s = PaneState::new();
    s.update_cwd_from_osc7("file://@myhost/tmp");
    assert!(s.user.is_none());
    assert_eq!(s.hostname.as_deref(), Some("myhost"));
    assert_eq!(s.cwd.as_deref(), Some("/tmp"));
}

#[test]
fn osc7_at_sign_in_user() {
    let mut s = PaneState::new();
    s.update_cwd_from_osc7("file://a@b@myhost/tmp");
    assert_eq!(s.user.as_deref(), Some("a@b"));
    assert_eq!(s.hostname.as_deref(), Some("myhost"));
    assert_eq!(s.cwd.as_deref(), Some("/tmp"));
}

#[test]
fn osc7_bare_file() {
    let mut s = PaneState::new();
    s.update_cwd_from_osc7("file://");
    assert!(s.user.is_none());
    assert!(s.hostname.is_none());
    assert!(s.cwd.is_none());
}

#[test]
fn osc7_not_file_scheme() {
    let mut s = PaneState::new();
    s.update_cwd_from_osc7("https://example.com/path");
    assert!(s.user.is_none());
    assert!(s.hostname.is_none());
    assert!(s.cwd.is_none());
}

#[test]
fn osc7_empty_string() {
    let mut s = PaneState::new();
    s.update_cwd_from_osc7("");
    assert!(s.user.is_none());
    assert!(s.hostname.is_none());
    assert!(s.cwd.is_none());
}

#[test]
fn osc7_overwrites_previous() {
    let mut s = PaneState::new();
    s.update_cwd_from_osc7("file://alice@host1/a");
    s.update_cwd_from_osc7("file://bob@host2/b");
    assert_eq!(s.user.as_deref(), Some("bob"));
    assert_eq!(s.hostname.as_deref(), Some("host2"));
    assert_eq!(s.cwd.as_deref(), Some("/b"));
}

#[test]
fn osc7_clears_user_when_absent() {
    let mut s = PaneState::new();
    s.update_cwd_from_osc7("file://alice@myhost/tmp");
    assert_eq!(s.user.as_deref(), Some("alice"));
    // Next OSC 7 without user should clear it
    s.update_cwd_from_osc7("file://myhost/tmp");
    assert!(s.user.is_none());
}

// --- OSC 133 cache ---

#[test]
fn osc133_cache_lookup_empty() {
    let s = PaneState::new();
    assert_eq!(s.osc133_lookup(100), None);
}

#[test]
fn osc133_cache_confirm_and_lookup() {
    let mut s = PaneState::new();
    s.osc133_confirm(100);
    assert_eq!(s.osc133_lookup(100), Some(true));
    assert_eq!(s.osc133_lookup(200), None);
}

#[test]
fn osc133_cache_fail_and_lookup() {
    let mut s = PaneState::new();
    s.osc133_fail(100);
    assert_eq!(s.osc133_lookup(100), Some(false));
}

#[test]
fn osc133_cache_confirm_overrides_fail() {
    let mut s = PaneState::new();
    s.osc133_fail(100);
    assert_eq!(s.osc133_lookup(100), Some(false));
    s.osc133_confirm(100);
    assert_eq!(s.osc133_lookup(100), Some(true));
}

#[test]
fn osc133_cache_fail_overrides_confirm() {
    let mut s = PaneState::new();
    s.osc133_confirm(100);
    s.osc133_fail(100);
    assert_eq!(s.osc133_lookup(100), Some(false));
}

#[test]
fn osc133_cache_separate_pids() {
    let mut s = PaneState::new();
    s.osc133_confirm(100);
    s.osc133_fail(200);
    assert_eq!(s.osc133_lookup(100), Some(true));
    assert_eq!(s.osc133_lookup(200), Some(false));
    assert_eq!(s.osc133_lookup(300), None);
}

#[test]
fn osc133_cache_bounded_at_5() {
    let mut s = PaneState::new();
    for pid in 1..=6 {
        s.osc133_confirm(pid);
    }
    // PID 1 should have been evicted
    assert_eq!(s.osc133_lookup(1), None);
    // PIDs 2-6 should be present
    for pid in 2..=6 {
        assert_eq!(s.osc133_lookup(pid), Some(true));
    }
}

#[test]
fn lookup_is_the_last_of_many_marks() {
    let mut s = PaneState::new();
    let mut marks: Vec<(u32, bool)> = Vec::new();
    let mut n: u32 = 7;
    for _ in 0..200 {
        n = n.wrapping_mul(1_103_515_245).wrapping_add(12_345);
        let (pid, confirmed) = ((n >> 16) % 9, (n >> 25) % 2 == 0);
        if confirmed {
            s.osc133_confirm(pid);
        } else {
            s.osc133_fail(pid);
        }
        marks.push((pid, confirmed));
        for p in 0..9 {
            let expected = marks.iter().rposition(|m| m.0 == p).and_then(|i| {
                let mut since: Vec<u32> = marks[i + 1..].iter().map(|m| m.0).collect();
                since.sort();
                since.dedup();
                if since.len() < 5 { Some(marks[i].1) } else { None }
            });
            assert_eq!(s.osc133_lookup(p), expected);
        }
    }
}
