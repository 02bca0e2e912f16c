//! Approvals.

use tmux_mcp::policy::approval::ApprovalStore;
use tmux_mcp::policy::PaneContext;

const NOW: u64 = 1_000_000_000;

fn ctx() -> PaneContext {
    PaneContext {
        hostname: None,
        cwd: Some("/home/user/project".into()),
        foreground: Some("bash".into()),
        user: Some("user".into()),
    }
}

#[test]
fn store_and_verify_roundtrip() {
    let mut store = ApprovalStore::new();
    let c = ctx();
    store.store("%0", "%1", "rm foo", &c, NOW);
    assert!(store.verify_and_consume("%0", "%1", "rm foo", &c, NOW).is_ok());
}

#[test]
fn consumed_cannot_be_reused() {
    let mut store = ApprovalStore::new();
    let c = ctx();
    store.store("%0", "%1", "rm foo", &c, NOW);
    assert!(store.verify_and_consume("%0", "%1", "rm foo", &c, NOW).is_ok());
    assert_eq!(
        store.verify_and_consume("%0", "%1", "rm foo", &c, NOW).unwrap_err(),
        "No pending approval"
    );
}

#[test]
fn command_mismatch() {
    let mut store = ApprovalStore::new();
    let c = ctx();
    store.store("%0", "%1", "rm foo", &c, NOW);
    assert_eq!(
        store.verify_and_consume("%0", "%1", "rm bar", &c, NOW).unwrap_err(),
        "Command changed since approval"
    );
}

#[test]
fn different_origin_cannot_consume() {
    let mut store = ApprovalStore::new();
    let c = ctx();
    store.store("%0", "%1", "rm foo", &c, NOW);
    assert_eq!(
        store.verify_and_consume("%99", "%1", "rm foo", &c, NOW).unwrap_err(),
        "No pending approval"
    );
}

#[test]
fn different_pane_cannot_consume() {
    let mut store = ApprovalStore::new();
    let c = ctx();
    store.store("%0", "%1", "rm foo", &c, NOW);
    assert_eq!(
        store.verify_and_consume("%0", "%2", "rm foo", &c, NOW).unwrap_err(),
        "No pending approval"
    );
}

#[test]
fn context_drift_hostname() {
    let mut store = ApprovalStore::new();
    let c = ctx();
    store.store("%0", "%1", "rm foo", &c, NOW);
    let mut drifted = c.clone();
    drifted.hostname = Some("prod-server".into());
    assert_eq!(
        store.verify_and_consume("%0", "%1", "rm foo", &drifted, NOW).unwrap_err(),
        "Pane context changed since approval"
    );
}

#[test]
fn context_drift_cwd() {
    let mut store = ApprovalStore::new();
    let c = ctx();
    store.store("%0", "%1", "rm foo", &c, NOW);
    let mut drifted = c.clone();
    drifted.cwd = Some("/etc".into());
    assert_eq!(
        store.verify_and_consume("%0", "%1", "rm foo", &drifted, NOW).unwrap_err(),
        "Pane context changed since approval"
    );
}

#[test]
fn context_drift_foreground() {
    let mut store = ApprovalStore::new();
    let c = ctx();
    store.store("%0", "%1", "rm foo", &c, NOW);
    let mut drifted = c.clone();
    drifted.foreground = Some("sudo".into());
    assert_eq!(
        store.verify_and_consume("%0", "%1", "rm foo", &drifted, NOW).unwrap_err(),
        "Pane context changed since approval"
    );
}

#[test]
fn context_drift_user() {
    let mut store = ApprovalStore::new();
    let c = ctx();
    store.store("%0", "%1", "rm foo", &c, NOW);
    let mut drifted = c.clone();
    drifted.user = Some("root".into());
    assert_eq!(
        store.verify_and_consume("%0", "%1", "rm foo", &drifted, NOW).unwrap_err(),
        "Pane context changed since approval"
    );
}

#[test]
fn store_replaces_existing() {
    let mut store = ApprovalStore::new();
    let c = ctx();
    store.store("%0", "%1", "rm foo", &c, NOW);
    store.store("%0", "%1", "rm bar", &c, NOW);
    // Old command should be gone
    assert_eq!(
        store.verify_and_consume("%0", "%1", "rm foo", &c, NOW).unwrap_err(),
        "Command changed since approval"
    );
    // New command should work
    assert!(store.verify_and_consume("%0", "%1", "rm bar", &c, NOW).is_ok());
}

#[test]
fn no_pending_approval() {
    let mut store = ApprovalStore::new();
    let c = ctx();
    assert_eq!(
        store.verify_and_consume("%0", "%1", "rm foo", &c, NOW).unwrap_err(),
        "No pending approval"
    );
}

#[test]
fn changed_context_takes_the_approval_away() {
    let c = ctx();
    let mut drifts = vec![c.clone(), c.clone(), c.clone(), c.clone()];
    drifts[0].hostname = Some("remote".into());
    drifts[1].cwd = Some("/etc".into());
    drifts[2].foreground = Some("sudo".into());
    drifts[3].user = Some("root".into());
    for drifted in &drifts {
        let mut store = ApprovalStore::new();
        store.store("%0", "%1", "rm foo", &c, NOW);
        store.store("%0", "%2", "rm foo", &c, NOW);
        assert_eq!(
            store.verify_and_consume("%0", "%1", "rm foo", drifted, NOW).unwrap_err(),
            "Pane context changed since approval"
        );
        assert_eq!(
            store.verify_and_consume("%0", "%1", "rm foo", &c, NOW).unwrap_err(),
            "No pending approval"
        );
        // The approval for another pane is untouched
        assert!(store.verify_and_consume("%0", "%2", "rm foo", &c, NOW).is_ok());
    }
}

#[test]
fn request_for_another_command_keeps_the_approval() {
    let mut store = ApprovalStore::new();
    let c = ctx();
    store.store("%0", "%1", "rm foo", &c, NOW);
    let mut drifted = c.clone();
    drifted.cwd = Some("/etc".into());
    assert_eq!(
        store.verify_and_consume("%0", "%1", "rm bar", &drifted, NOW).unwrap_err(),
        "Command changed since approval"
    );
    assert!(store.verify_and_consume("%0", "%1", "rm foo", &c, NOW).is_ok());
}
