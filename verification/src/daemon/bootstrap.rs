//! The panes of a session at the start, as tmux lists them.

use crate::text::{
    copy_range, find_char, index_of_char, lines_of, parse_u32, parsed_u32, split_lines, str_eq,
    string_of, chars_of, texts,
};
use vstd::prelude::*;

verus! {

/// The command that lists all panes of a session.
pub const BOOTSTRAP_QUERY: &'static str =
    "list-panes -s -F '#{window_id}\t#{pane_id}\t#{pane_pid}\t#{window_layout}'";

/// A window with its layout.
#[derive(Debug, Clone, PartialEq, Eq)]
pub struct BootstrapWindow {
    pub window_id: String,
    pub layout: String,
}

/// A pane with its process.
#[derive(Debug, Clone, PartialEq, Eq)]
pub struct BootstrapPane {
    pub pane_id: String,
    pub pid: u32,
}

/// The fields of a listed pane.
pub ghost struct ListedPane {
    pub window_id: Seq<char>,
    pub pane_id: Seq<char>,
    pub pid: Seq<char>,
    pub layout: Seq<char>,
}

/// What stands before the first tab of a text.
pub open spec fn before_tab(s: Seq<char>) -> Seq<char> {
    s.subrange(0, index_of_char(s, '\t'))
}

/// What stands behind the first tab of a text; none where there is no tab.
pub open spec fn after_tab(s: Seq<char>) -> Option<Seq<char>> {
    let i = index_of_char(s, '\t');
    if i < s.len() {
        Some(s.subrange(i + 1, s.len() as int))
    } else {
        None
    }
}

/// The fields of a line `window_id \t pane_id \t pane_pid \t window_layout`;
/// none where there are fewer. The last one goes to the end of the line.
pub open spec fn listed(line: Seq<char>) -> Option<ListedPane> {
    match after_tab(line) {
        Some(a) => match after_tab(a) {
            Some(b) => match after_tab(b) {
                Some(layout) => Some(
                    ListedPane {
                        window_id: before_tab(line),
                        pane_id: before_tab(a),
                        pid: before_tab(b),
                        layout,
                    },
                ),
                None => None,
            },
            None => None,
        },
        None => None,
    }
}

/// Whether one of the windows has that identifier.
pub open spec fn has_window(windows: Seq<(Seq<char>, Seq<char>)>, id: Seq<char>) -> bool {
    exists|i: int| 0 <= i < windows.len() && (#[trigger] windows[i]).0 == id
}

/// The windows of the lines with the layouts told first, in the order in which
/// they are told first.
pub open spec fn windows_of(lines: Seq<Seq<char>>) -> Seq<(Seq<char>, Seq<char>)>
    decreases lines.len(),
{
    if lines.len() == 0 {
        Seq::empty()
    } else {
        let before = windows_of(lines.drop_last());
        match listed(lines.last()) {
            Some(p) => if has_window(before, p.window_id) {
                before
            } else {
                before.push((p.window_id, p.layout))
            },
            None => before,
        }
    }
}

/// The panes of the lines whose process is a number, with that number.
pub open spec fn panes_of(lines: Seq<Seq<char>>) -> Seq<(Seq<char>, u32)>
    decreases lines.len(),
{
    if lines.len() == 0 {
        Seq::empty()
    } else {
        let before = panes_of(lines.drop_last());
        match listed(lines.last()) {
            Some(p) => match parsed_u32(p.pid) {
                Some(pid) => before.push((p.pane_id, pid)),
                None => before,
            },
            None => before,
        }
    }
}

/// Windows, mathematically.
pub open spec fn window_views(v: Seq<BootstrapWindow>) -> Seq<(Seq<char>, Seq<char>)> {
    v.map_values(|w: BootstrapWindow| (w.window_id@, w.layout@))
}

/// Panes, mathematically.
pub open spec fn pane_views(v: Seq<BootstrapPane>) -> Seq<(Seq<char>, u32)> {
    v.map_values(|p: BootstrapPane| (p.pane_id@, p.pid))
}

/// Split a text at its first tab.
fn split_tab(s: &[char]) -> (r: (Vec<char>, Option<Vec<char>>))
    ensures
        r.0@ == before_tab(s@),
        match r.1 {
            Some(rest) => after_tab(s@) == Some(rest@),
            None => after_tab(s@) is None,
        },
{
    let n: usize = s.len();
    let i: usize = find_char(s, '\t');
    let head = copy_range(s, 0, i);
    if i < n {
        (head, Some(copy_range(s, i + 1, n)))
    } else {
        (head, None)
    }
}

/// Whether one of the windows has that identifier.
fn seen(windows: &Vec<BootstrapWindow>, id: &str) -> (r: bool)
    ensures
        r == has_window(window_views(windows@), id@),
{
    let ghost views = window_views(windows@);
    let mut i: usize = 0;
    while i < windows.len()
        invariant
            i <= windows@.len(),
            views == window_views(windows@),
            forall|k: int| 0 <= k < i ==> (#[trigger] views[k]).0 != id@,
        decreases windows.len() - i,
    {
        assert(views[i as int].0 == windows@[i as int].window_id@);
        if str_eq(windows[i].window_id.as_str(), id) {
            return true;
        }
        i = i + 1;
    }
    false
}

/// Parse the answer to the listing of all panes. Each window is returned once,
/// and each pane with its process.
pub fn parse_bootstrap(output: &str) -> (r: (Vec<BootstrapWindow>, Vec<BootstrapPane>))
    ensures
        window_views(r.0@) == windows_of(lines_of(output@)),
        pane_views(r.1@) == panes_of(lines_of(output@)),
{
    let lines = split_lines(output);
    let ghost all = texts(lines@);
    let n: usize = lines.len();
    let mut windows: Vec<BootstrapWindow> = Vec::new();
    let mut panes: Vec<BootstrapPane> = Vec::new();
    let mut i: usize = 0;
    assert(window_views(windows@) =~= windows_of(all.subrange(0, 0)));
    assert(pane_views(panes@) =~= panes_of(all.subrange(0, 0)));
    while i < n
        invariant
            i <= n == lines@.len(),
            all == texts(lines@),
            window_views(windows@) == windows_of(all.subrange(0, i as int)),
            pane_views(panes@) == panes_of(all.subrange(0, i as int)),
        decreases n - i,
    {
        let ghost next = all.subrange(0, i + 1);
        assert(next.drop_last() =~= all.subrange(0, i as int));
        assert(next.last() == lines@[i as int]@);
        let ghost w = window_views(windows@);
        let ghost p = pane_views(panes@);
        let line = chars_of(lines[i].as_str());
        let (window_id, a) = split_tab(line.as_slice());
        if let Some(a) = a {
            let (pane_id, b) = split_tab(a.as_slice());
            if let Some(b) = b {
                let (pid, layout) = split_tab(b.as_slice());
                if let Some(layout) = layout {
                    if let Some(pid) = parse_u32(pid.as_slice()) {
                        panes.push(BootstrapPane { pane_id: string_of(pane_id.as_slice()), pid });
                        assert(pane_views(panes@) =~= p.push((pane_id@, pid)));
                    }
                    let window_id = string_of(window_id.as_slice());
                    if !seen(&windows, window_id.as_str()) {
                        let ghost id = window_id@;
                        windows.push(
                            BootstrapWindow { window_id, layout: string_of(layout.as_slice()) },
                        );
                        assert(window_views(windows@) =~= w.push((id, layout@)));
                    }
                }
            }
        }
        i = i + 1;
    }
    assert(all.subrange(0, n as int) =~= all);
    (windows, panes)
}

/// No window is returned twice.
pub proof fn windows_are_distinct(lines: Seq<Seq<char>>)
    ensures
        forall|i: int, j: int|
            0 <= i < j < windows_of(lines).len() ==> (#[trigger] windows_of(lines)[i]).0 != (
            #[trigger] windows_of(lines)[j]).0,
    decreases lines.len(),
{
    if lines.len() > 0 {
        windows_are_distinct(lines.drop_last());
        let before = windows_of(lines.drop_last());
        let all = windows_of(lines);
        assert forall|i: int, j: int| 0 <= i < j < all.len() implies (#[trigger] all[i]).0 != (
        #[trigger] all[j]).0 by {
            assert(all[i] == before[i]);
            if j < before.len() {
                assert(all[j] == before[j]);
            }
        }
    }
}

/// What tmux lists of a pane is read for what it is.
pub proof fn listed_line_is_read(
    window: Seq<char>,
    pane: Seq<char>,
    pid: Seq<char>,
    layout: Seq<char>,
)
    requires
        !window.contains('\t'),
        !pane.contains('\t'),
        !pid.contains('\t'),
    ensures
        listed(window + seq!['\t'] + pane + seq!['\t'] + pid + seq!['\t'] + layout) == Some(
            ListedPane { window_id: window, pane_id: pane, pid, layout },
        ),
{
    let c = pid + seq!['\t'] + layout;
    let b = pane + seq!['\t'] + c;
    let a = window + seq!['\t'] + b;
    field_is_read(window, b);
    field_is_read(pane, c);
    field_is_read(pid, layout);
    assert(window + seq!['\t'] + pane + seq!['\t'] + pid + seq!['\t'] + layout =~= a);
}

/// A field in front of a tab is read.
proof fn field_is_read(field: Seq<char>, rest: Seq<char>)
    requires
        !field.contains('\t'),
    ensures
        before_tab(field + seq!['\t'] + rest) == field,
        after_tab(field + seq!['\t'] + rest) == Some(rest),
{
    let s = field + seq!['\t'] + rest;
    let n = field.len() as int;
    assert forall|j: int| 0 <= j < n implies s[j] != '\t' by {
        assert(field.contains(field[j]));
        assert(s[j] == field[j]);
    }
    assert(s[n] == '\t');
    crate::text::index_of_char_unique(s, '\t', n);
    assert(s.subrange(0, n) =~= field);
    assert(s.subrange(n + 1, s.len() as int) =~= rest);
}

/// Every pane that is listed with a process is told, and so is every window that a
/// pane is listed of.
pub proof fn listed_panes_are_told(lines: Seq<Seq<char>>, i: int, p: ListedPane)
    requires
        0 <= i < lines.len(),
        listed(lines[i]) == Some(p),
    ensures
        has_window(windows_of(lines), p.window_id),
        parsed_u32(p.pid) matches Some(pid) ==> panes_of(lines).contains((p.pane_id, pid)),
    decreases lines.len(),
{
    let front = lines.drop_last();
    let windows = windows_of(lines);
    let panes = panes_of(lines);
    if i < front.len() {
        assert(front[i] == lines[i]);
        listed_panes_are_told(front, i, p);
        let k = choose|k: int| 0 <= k < windows_of(front).len() && (#[trigger] windows_of(
            front,
        )[k]).0 == p.window_id;
        assert(windows[k] == windows_of(front)[k]);
        if let Some(pid) = parsed_u32(p.pid) {
            let e = (p.pane_id, pid);
            let j = choose|j: int| 0 <= j < panes_of(front).len() && panes_of(front)[j] == e;
            assert(panes[j] == e);
        }
    } else {
        assert(lines.last() == lines[i]);
        let before = windows_of(front);
        if has_window(before, p.window_id) {
            assert(windows == before);
        } else {
            assert(windows[before.len() as int] == (p.window_id, p.layout));
        }
        if let Some(pid) = parsed_u32(p.pid) {
            assert(panes[panes_of(front).len() as int] == (p.pane_id, pid));
        }
    }
}

} // verus!
