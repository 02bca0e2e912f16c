//! The registry of panes.

use tmux_mcp::pane::registry::{PaneRegistry, SyncAction};
use tmux_mcp::parse::layout::LayoutPane;

fn lp(pane_number: u32, width: usize, height: usize, x: usize, y: usize) -> LayoutPane {
    LayoutPane { pane_number, width, height, x, y }
}

fn has_action(actions: &[SyncAction], expected: &SyncAction) -> bool {
    actions.iter().any(|a| a == expected)
}

#[test]
fn adds_new_panes() {
    let mut reg = PaneRegistry::new();
    let actions = reg.apply_layout("@1", &[
        lp(0, 80, 24, 0, 0),
        lp(1, 80, 24, 0, 25),
    ]);
    assert_eq!(actions.len(), 2);
    assert!(has_action(&actions, &SyncAction::PaneAdded { pane_id: "%0".into() }));
    assert!(has_action(&actions, &SyncAction::PaneAdded { pane_id: "%1".into() }));
    assert_eq!(reg.len(), 2);
}

#[test]
fn removes_dead_panes() {
    let mut reg = PaneRegistry::new();
    reg.apply_layout("@1", &[lp(1, 80, 24, 0, 0), lp(2, 80, 24, 0, 25)]);
    assert_eq!(reg.len(), 2);

    // %2 disappears
    let actions = reg.apply_layout("@1", &[lp(1, 80, 24, 0, 0)]);
    assert!(has_action(&actions, &SyncAction::PaneRemoved { pane_id: "%2".into() }));
    assert_eq!(reg.len(), 1);
}

#[test]
fn detects_resize() {
    let mut reg = PaneRegistry::new();
    reg.apply_layout("@1", &[lp(1, 80, 24, 0, 0)]);

    let actions = reg.apply_layout("@1", &[lp(1, 120, 40, 0, 0)]);
    assert!(has_action(&actions, &SyncAction::Resized {
        pane_id: "%1".into(), width: 120, height: 40,
    }));

    let tp = reg.get("%1").unwrap();
    assert_eq!(tp.processor.columns(), 120);
    assert_eq!(tp.processor.screen_lines(), 40);
}

#[test]
fn no_op_unchanged() {
    let mut reg = PaneRegistry::new();
    reg.apply_layout("@1", &[lp(1, 80, 24, 0, 0)]);

    let actions = reg.apply_layout("@1", &[lp(1, 80, 24, 0, 0)]);
    assert!(actions.is_empty());
}

#[test]
fn updates_position() {
    let mut reg = PaneRegistry::new();
    reg.apply_layout("@1", &[lp(1, 80, 24, 0, 0)]);
    assert_eq!(reg.get("%1").unwrap().x, 0);

    // Position changes but dimensions don't — no Resized action, but position updated
    reg.apply_layout("@1", &[lp(1, 80, 24, 50, 10)]);
    let tp = reg.get("%1").unwrap();
    assert_eq!(tp.x, 50);
    assert_eq!(tp.y, 10);
}

#[test]
fn preserves_other_windows() {
    let mut reg = PaneRegistry::new();
    reg.apply_layout("@1", &[lp(1, 80, 24, 0, 0)]);
    reg.apply_layout("@2", &[lp(2, 80, 24, 0, 0)]);
    assert_eq!(reg.len(), 2);

    // Remove all panes from @1 — @2 unaffected
    let actions = reg.apply_layout("@1", &[]);
    assert!(has_action(&actions, &SyncAction::PaneRemoved { pane_id: "%1".into() }));
    assert_eq!(reg.len(), 1);
    assert!(reg.get("%2").is_some());
}

#[test]
fn remove_window_clears_all() {
    let mut reg = PaneRegistry::new();
    reg.apply_layout("@1", &[lp(1, 80, 24, 0, 0), lp(2, 80, 24, 0, 25)]);
    reg.apply_layout("@2", &[lp(3, 80, 24, 0, 0)]);
    assert_eq!(reg.len(), 3);

    let actions = reg.remove_window("@1");
    assert_eq!(actions.len(), 2);
    assert_eq!(reg.len(), 1);
    assert!(reg.get("%3").is_some());
}

#[test]
fn set_pid_stores_value() {
    let mut reg = PaneRegistry::new();
    reg.apply_layout("@1", &[lp(1, 80, 24, 0, 0)]);

    assert!(reg.get("%1").unwrap().pid.is_none());
    reg.set_pid("%1", 12345);
    assert_eq!(reg.get("%1").unwrap().pid, Some(12345));
}

#[test]
fn set_pid_unknown_pane_is_noop() {
    let mut reg = PaneRegistry::new();
    reg.set_pid("%99", 12345); // should not panic
}

#[test]
fn processor_state_survives_layout_update() {
    let mut reg = PaneRegistry::new();
    reg.apply_layout("@1", &[lp(1, 80, 24, 0, 0)]);

    // Feed data to the processor
    reg.get_processor_mut("%1").unwrap().process_chunk(b"hello world");
    assert_eq!(reg.get("%1").unwrap().processor.screen_line_text(0), "hello world");

    // Layout update (resize) should not lose processor state lines
    // (alacritty preserves content on resize)
    reg.apply_layout("@1", &[lp(1, 120, 24, 0, 0)]);
    assert_eq!(reg.get("%1").unwrap().processor.screen_line_text(0), "hello world");
}

#[test]
fn get_processor_mut_unknown() {
    let mut reg = PaneRegistry::new();
    assert!(reg.get_processor_mut("%99").is_none());
}

#[test]
fn multi_window_lifecycle() {
    let mut reg = PaneRegistry::new();

    // Window @1 with two panes
    reg.apply_layout("@1", &[lp(1, 100, 50, 0, 0), lp(2, 99, 50, 101, 0)]);
    // Window @2 with one pane
    reg.apply_layout("@2", &[lp(3, 80, 24, 0, 0)]);
    assert_eq!(reg.len(), 3);

    // Pane %2 splits into %2 and %4 in window @1
    let actions = reg.apply_layout("@1", &[
        lp(1, 100, 50, 0, 0),
        lp(2, 99, 25, 101, 0),
        lp(4, 99, 24, 101, 26),
    ]);
    assert!(has_action(&actions, &SyncAction::PaneAdded { pane_id: "%4".into() }));
    assert!(has_action(&actions, &SyncAction::Resized { pane_id: "%2".into(), width: 99, height: 25 }));
    assert_eq!(reg.len(), 4);

    // Close window @2
    let actions = reg.remove_window("@2");
    assert_eq!(actions.len(), 1);
    assert_eq!(reg.len(), 3);
}
