//! Layout strings.

use tmux_mcp::parse::layout::{parse_layout, LayoutPane};

#[test]
fn single_pane() {
    let panes = parse_layout("a1b2,80x24,0,0,0");
    assert_eq!(panes, vec![LayoutPane {
        pane_number: 0, width: 80, height: 24, x: 0, y: 0,
    }]);
}

#[test]
fn horizontal_split() {
    // Two panes side by side
    let panes = parse_layout("d5a0,200x50,0,0{100x50,0,0,1,99x50,101,0,2}");
    assert_eq!(panes.len(), 2);
    assert_eq!(panes[0], LayoutPane {
        pane_number: 1, width: 100, height: 50, x: 0, y: 0,
    });
    assert_eq!(panes[1], LayoutPane {
        pane_number: 2, width: 99, height: 50, x: 101, y: 0,
    });
}

#[test]
fn vertical_split() {
    // Two panes stacked
    let panes = parse_layout("e3f1,80x50,0,0[80x25,0,0,3,80x24,0,26,4]");
    assert_eq!(panes.len(), 2);
    assert_eq!(panes[0], LayoutPane {
        pane_number: 3, width: 80, height: 25, x: 0, y: 0,
    });
    assert_eq!(panes[1], LayoutPane {
        pane_number: 4, width: 80, height: 24, x: 0, y: 26,
    });
}

#[test]
fn nested_split() {
    // Left pane + right side split vertically into two
    let panes = parse_layout(
        "abcd,200x50,0,0{100x50,0,0,1,99x50,101,0[99x25,101,0,2,99x24,101,26,3]}"
    );
    assert_eq!(panes.len(), 3);
    assert_eq!(panes[0], LayoutPane {
        pane_number: 1, width: 100, height: 50, x: 0, y: 0,
    });
    assert_eq!(panes[1], LayoutPane {
        pane_number: 2, width: 99, height: 25, x: 101, y: 0,
    });
    assert_eq!(panes[2], LayoutPane {
        pane_number: 3, width: 99, height: 24, x: 101, y: 26,
    });
}

#[test]
fn three_way_horizontal() {
    let panes = parse_layout(
        "1234,300x50,0,0{100x50,0,0,0,100x50,101,0,1,98x50,202,0,2}"
    );
    assert_eq!(panes.len(), 3);
    assert_eq!(panes[0].pane_number, 0);
    assert_eq!(panes[1].pane_number, 1);
    assert_eq!(panes[2].pane_number, 2);
    assert_eq!(panes[2].x, 202);
}

#[test]
fn deeply_nested() {
    // {leaf, [leaf, {leaf, leaf}]}
    let panes = parse_layout(
        "ffff,200x50,0,0{100x50,0,0,1,99x50,101,0[99x25,101,0,2,99x24,101,26{49x24,101,26,3,49x24,151,26,4}]}"
    );
    assert_eq!(panes.len(), 4);
    assert_eq!(panes[0].pane_number, 1);
    assert_eq!(panes[1].pane_number, 2);
    assert_eq!(panes[2].pane_number, 3);
    assert_eq!(panes[3].pane_number, 4);
}

#[test]
fn high_pane_numbers() {
    let panes = parse_layout("ab12,80x24,0,0,42");
    assert_eq!(panes.len(), 1);
    assert_eq!(panes[0].pane_number, 42);
}

#[test]
fn malformed_empty() {
    assert!(parse_layout("").is_empty());
}

#[test]
fn malformed_no_comma() {
    assert!(parse_layout("abcd").is_empty());
}

#[test]
fn malformed_truncated() {
    assert!(parse_layout("abcd,80x").is_empty());
}

#[test]
fn malformed_no_pane_id() {
    // Root dims but no leaf/split — malformed
    assert!(parse_layout("abcd,80x24,0,0").is_empty());
}

#[test]
fn malformed_split_is_empty() {
    for layout in [
        "d5a0,200x50,0,0{100x50,0,0,1,99x50",
        "d5a0,200x50,0,0{100x50,0,0,1,99x50,101,0,2",
        "d5a0,200x50,0,0{100x50,0,0,1,99x50,101,0,2]",
        "d5a0,200x50,0,0{100x50,0,0,1,}",
        "d5a0,200x50,0,0{}",
        "d5a0,200x50,0,0{100x50,0,0,1,99x50,101,0,2}}",
        "d5a0,80x24,0,0,1 ",
        "d5a0,80x24,0,0,",
        "d5a0,80x24,0,0,1,80x24,0,0,2",
    ] {
        assert!(parse_layout(layout).is_empty(), "{}", layout);
    }
    assert_eq!(parse_layout("d5a0,200x50,0,0{100x50,0,0,1,99x50,101,0,2}").len(), 2);
    assert_eq!(parse_layout("d5a0,80x24,0,0[80x24,0,0,1]").len(), 1);
}
