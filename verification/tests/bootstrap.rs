//! The list of panes at the start.

use tmux_mcp::daemon::parse_bootstrap;

#[test]
fn parse_bootstrap_single_window() {
    let output = "@0\t%0\t1234\taaaa,80x24,0,0,0\n\
                   @0\t%1\t1235\taaaa,80x24,0,0,0";
    let (windows, panes) = parse_bootstrap(output);
    assert_eq!(windows.len(), 1);
    assert_eq!(windows[0].window_id, "@0");
    assert_eq!(windows[0].layout, "aaaa,80x24,0,0,0");
    assert_eq!(panes.len(), 2);
    assert_eq!(panes[0].pane_id, "%0");
    assert_eq!(panes[0].pid, 1234);
    assert_eq!(panes[1].pane_id, "%1");
    assert_eq!(panes[1].pid, 1235);
}

#[test]
fn parse_bootstrap_multi_window() {
    let output = "@0\t%0\t100\taaaa,80x24,0,0,0\n\
                   @1\t%1\t200\tbbbb,120x40,0,0,1";
    let (windows, panes) = parse_bootstrap(output);
    assert_eq!(windows.len(), 2);
    assert_eq!(panes.len(), 2);
    assert_eq!(windows[0].window_id, "@0");
    assert_eq!(windows[1].window_id, "@1");
}

#[test]
fn parse_bootstrap_deduplicates_windows() {
    let output = "@0\t%0\t100\taaaa,200x50,0,0{100x50,0,0,0,99x50,101,0,1}\n\
                   @0\t%1\t200\taaaa,200x50,0,0{100x50,0,0,0,99x50,101,0,1}";
    let (windows, panes) = parse_bootstrap(output);
    assert_eq!(windows.len(), 1);
    assert_eq!(panes.len(), 2);
}

#[test]
fn parse_bootstrap_empty() {
    let (windows, panes) = parse_bootstrap("");
    assert!(windows.is_empty());
    assert!(panes.is_empty());
}

#[test]
fn parse_bootstrap_malformed_line() {
    let output = "not\tenough\tfields";
    let (windows, panes) = parse_bootstrap(output);
    assert!(windows.is_empty());
    assert!(panes.is_empty());
}

#[test]
fn parse_bootstrap_invalid_pid() {
    let output = "@0\t%0\tnotanumber\taaaa,80x24,0,0,0";
    let (windows, panes) = parse_bootstrap(output);
    assert_eq!(windows.len(), 1);
    assert!(panes.is_empty());
}
