//! Pane registry: the panes that are watched, with their processors. It takes
//! what was parsed and returns what is to be done in tmux.

use crate::pane::osc133::ParserModel;
use crate::pane::processor::{
    blank, new_screen_of, resized_screen, screen_height, screen_width, PaneProcessor, ScreenSize,
};
use crate::pane::state::StateModel;
use crate::parse::layout::LayoutPane;
use crate::text::{decimal, decimal_is_read, decimal_string, str_eq};
use vstd::prelude::*;
use vstd::string::StringExecFns;

verus! {

/// A watched pane.
pub struct TrackedPane {
    pub pane_id: String,
    pub window_id: String,
    pub pid: Option<u32>,
    pub x: usize,
    pub y: usize,
    pub processor: PaneProcessor,
}

/// What the caller must do in tmux after a change.
#[derive(Debug, Clone, PartialEq, Eq)]
pub enum SyncAction {
    /// A new pane: enable its output and ask for its process.
    PaneAdded { pane_id: String },
    /// A pane is gone: disable its output.
    PaneRemoved { pane_id: String },
    /// The size has changed, and the screen with it. To be told only.
    Resized { pane_id: String, width: usize, height: usize },
}

/// An action, mathematically.
pub ghost enum ActionModel {
    PaneAdded(Seq<char>),
    PaneRemoved(Seq<char>),
    Resized { pane_id: Seq<char>, width: int, height: int },
}

impl View for SyncAction {
    type V = ActionModel;

    open spec fn view(&self) -> ActionModel {
        match *self {
            SyncAction::PaneAdded { pane_id } => ActionModel::PaneAdded(pane_id@),
            SyncAction::PaneRemoved { pane_id } => ActionModel::PaneRemoved(pane_id@),
            SyncAction::Resized { pane_id, width, height } => ActionModel::Resized {
                pane_id: pane_id@,
                width: width as int,
                height: height as int,
            },
        }
    }
}

/// Actions, mathematically.
pub open spec fn actions(v: Seq<SyncAction>) -> Seq<ActionModel> {
    v.map_values(|a: SyncAction| a@)
}

/// The identifier of the pane with that number.
pub open spec fn pane_label(n: u32) -> Seq<char> {
    seq!['%'] + decimal(n as nat)
}

/// The identifier of the pane with that number.
pub fn label(n: u32) -> (r: String)
    ensures
        r@ == pane_label(n),
{
    let mut out = String::new();
    out.push('%');
    let digits = decimal_string(n as u64);
    out.append(digits.as_str());
    assert(out@ =~= pane_label(n));
    out
}

/// The place of the pane with that identifier, -1 where there is none.
pub open spec fn place_of(panes: Seq<TrackedPane>, id: Seq<char>) -> int
    decreases panes.len(),
{
    if panes.len() == 0 {
        -1
    } else if panes.last().pane_id@ == id {
        panes.len() - 1
    } else {
        place_of(panes.drop_last(), id)
    }
}

/// The pane with that identifier.
pub open spec fn pane_at(panes: Seq<TrackedPane>, id: Seq<char>) -> Option<TrackedPane> {
    let i = place_of(panes, id);
    if i < 0 {
        None
    } else {
        Some(panes[i])
    }
}

/// No identifier occurs twice.
pub open spec fn distinct(panes: Seq<TrackedPane>) -> bool {
    forall|i: int, j: int|
        0 <= i < j < panes.len() ==> (#[trigger] panes[i]).pane_id@ != (#[trigger] panes[j]).pane_id@
}

/// What `place_of` finds.
pub(crate) proof fn place_is_found(panes: Seq<TrackedPane>, id: Seq<char>)
    ensures
        -1 <= place_of(panes, id) < panes.len(),
        place_of(panes, id) >= 0 ==> panes[place_of(panes, id)].pane_id@ == id,
        place_of(panes, id) < 0 ==> forall|i: int|
            0 <= i < panes.len() ==> (#[trigger] panes[i]).pane_id@ != id,
    decreases panes.len(),
{
    if panes.len() > 0 && panes.last().pane_id@ != id {
        place_is_found(panes.drop_last(), id);
        assert(forall|i: int|
            0 <= i < panes.len() - 1 ==> #[trigger] panes[i] == panes.drop_last()[i]);
    }
}

/// Where identifiers are distinct, a pane is found at its own place.
proof fn place_is_unique(panes: Seq<TrackedPane>, i: int)
    requires
        distinct(panes),
        0 <= i < panes.len(),
    ensures
        place_of(panes, panes[i].pane_id@) == i,
{
    place_is_found(panes, panes[i].pane_id@);
}

/// The last entry of the layout for that identifier.
pub open spec fn wanted(layout: Seq<LayoutPane>, id: Seq<char>) -> Option<LayoutPane>
    decreases layout.len(),
{
    if layout.len() == 0 {
        None
    } else if pane_label(layout.last().pane_number) == id {
        Some(layout.last())
    } else {
        wanted(layout.drop_last(), id)
    }
}

/// Whether a pane has left a window with that layout.
pub open spec fn gone(t: TrackedPane, window: Seq<char>, layout: Seq<LayoutPane>) -> bool {
    t.window_id@ == window && wanted(layout, t.pane_id@) is None
}

/// The panes that stay.
pub open spec fn staying(
    panes: Seq<TrackedPane>,
    window: Seq<char>,
    layout: Seq<LayoutPane>,
) -> Seq<TrackedPane>
    decreases panes.len(),
{
    if panes.len() == 0 {
        Seq::empty()
    } else if gone(panes.last(), window, layout) {
        staying(panes.drop_last(), window, layout)
    } else {
        staying(panes.drop_last(), window, layout).push(panes.last())
    }
}

/// The actions for the panes that go.
pub open spec fn removals(
    panes: Seq<TrackedPane>,
    window: Seq<char>,
    layout: Seq<LayoutPane>,
) -> Seq<ActionModel>
    decreases panes.len(),
{
    if panes.len() == 0 {
        Seq::empty()
    } else if gone(panes.last(), window, layout) {
        removals(panes.drop_last(), window, layout).push(
            ActionModel::PaneRemoved(panes.last().pane_id@),
        )
    } else {
        removals(panes.drop_last(), window, layout)
    }
}

/// Whether no later entry of the layout is for the same pane.
pub open spec fn is_last(layout: Seq<LayoutPane>, i: int) -> bool {
    forall|j: int|
        i < j < layout.len() ==> pane_label((#[trigger] layout[j]).pane_number) != pane_label(
            layout[i].pane_number,
        )
}

/// The action for an entry of a layout, where there is something to be done.
pub open spec fn entry_action(panes: Seq<TrackedPane>, lp: LayoutPane) -> Option<ActionModel> {
    let id = pane_label(lp.pane_number);
    match pane_at(panes, id) {
        None => Some(ActionModel::PaneAdded(id)),
        Some(t) => if t.processor.width() != lp.width || t.processor.lines() != lp.height {
            Some(
                ActionModel::Resized {
                    pane_id: id,
                    width: lp.width as int,
                    height: lp.height as int,
                },
            )
        } else {
            None
        },
    }
}

/// The actions for the first `n` entries of a layout. Of several entries for one
/// pane the last counts.
pub open spec fn entry_actions(panes: Seq<TrackedPane>, layout: Seq<LayoutPane>, n: int) -> Seq<
    ActionModel,
>
    decreases n,
{
    if n <= 0 {
        Seq::empty()
    } else {
        let before = entry_actions(panes, layout, n - 1);
        if is_last(layout, n - 1) {
            match entry_action(panes, layout[n - 1]) {
                Some(a) => before.push(a),
                None => before,
            }
        } else {
            before
        }
    }
}

/// Whether a pane is what an entry of a window's layout makes of what was there.
pub open spec fn synced(
    was: Option<TrackedPane>,
    now: TrackedPane,
    window: Seq<char>,
    lp: LayoutPane,
) -> bool {
    &&& now.pane_id@ == pane_label(lp.pane_number)
    &&& now.x == lp.x && now.y == lp.y
    &&& now.processor.valid()
    &&& now.processor.lines() == lp.height && now.processor.width() == lp.width
    &&& match was {
        Some(t) => {
            &&& now.window_id@ == t.window_id@
            &&& now.pid == t.pid
            &&& now.processor == (if t.processor.lines() == lp.height && t.processor.width()
                == lp.width {
                t.processor
            } else {
                PaneProcessor {
                    screen: resized_screen(
                        t.processor.screen,
                        screen_height(lp.height),
                        screen_width(lp.width),
                    ),
                    size: ScreenSize { lines: lp.height, columns: lp.width },
                    ..t.processor
                }
            })
        },
        None => {
            &&& now.window_id@ == window
            &&& now.pid is None
            &&& now.processor.rows() == blank(
                screen_height(lp.height) as nat,
                screen_width(lp.width) as nat,
            )
            &&& now.processor.cursor() == (0usize, 0usize)
            &&& now.processor.state@ == StateModel::fresh()
            &&& now.processor.osc133@ == ParserModel::fresh()
            &&& now.processor.screen == new_screen_of(
                screen_height(lp.height),
                screen_width(lp.width),
            )
        },
    }
}

/// What stays is found as before, and nothing else.
proof fn staying_is_found(
    panes: Seq<TrackedPane>,
    window: Seq<char>,
    layout: Seq<LayoutPane>,
    id: Seq<char>,
)
    requires
        distinct(panes),
    ensures
        pane_at(staying(panes, window, layout), id) == (match pane_at(panes, id) {
            Some(t) => if gone(t, window, layout) {
                None
            } else {
                Some(t)
            },
            None => None,
        }),
    decreases panes.len(),
{
    if panes.len() > 0 {
        let front = panes.drop_last();
        staying_is_found(front, window, layout, id);
        place_is_found(front, id);
        place_is_found(staying(front, window, layout), id);
        place_is_found(panes, id);
        let s = staying(panes, window, layout);
        if !gone(panes.last(), window, layout) {
            assert(s.drop_last() =~= staying(front, window, layout));
        }
        if place_of(front, id) >= 0 {
            assert(front[place_of(front, id)] == panes[place_of(front, id)]);
        }
    }
}

/// What stays is distinct and valid.
proof fn staying_is_distinct(panes: Seq<TrackedPane>, window: Seq<char>, layout: Seq<LayoutPane>)
    requires
        distinct(panes),
    ensures
        distinct(staying(panes, window, layout)),
        forall|i: int|
            0 <= i < staying(panes, window, layout).len() ==> exists|k: int|
                0 <= k < panes.len() && #[trigger] staying(panes, window, layout)[i] == panes[k],
        staying(panes, window, layout).len() <= panes.len(),
    decreases panes.len(),
{
    if panes.len() > 0 {
        let front = panes.drop_last();
        staying_is_distinct(front, window, layout);
        let before = staying(front, window, layout);
        let s = staying(panes, window, layout);
        assert forall|i: int| 0 <= i < s.len() implies exists|k: int|
            0 <= k < panes.len() && #[trigger] s[i] == panes[k] by {
            if i < before.len() {
                assert(s[i] == before[i]);
                let k = choose|k: int| 0 <= k < front.len() && before[i] == front[k];
                assert(s[i] == panes[k]);
            } else {
                assert(s[i] == panes[panes.len() - 1]);
            }
        }
        assert forall|i: int, j: int| 0 <= i < j < s.len() implies (#[trigger] s[i]).pane_id@ != (
        #[trigger] s[j]).pane_id@ by {
            assert(s[i] == before[i]);
            let k = choose|k: int| 0 <= k < front.len() && before[i] == front[k];
            assert(panes[k] == front[k]);
            if j < before.len() {
                assert(s[j] == before[j]);
            } else {
                assert(s[j] == panes[panes.len() - 1]);
            }
        }
    }
}

/// The entry that counts for a pane is the last one with its identifier.
proof fn wanted_is_last(layout: Seq<LayoutPane>, id: Seq<char>)
    ensures
        match wanted(layout, id) {
            Some(lp) => exists|i: int|
                0 <= i < layout.len() && #[trigger] layout[i] == lp && is_last(layout, i)
                    && pane_label(lp.pane_number) == id,
            None => forall|i: int|
                0 <= i < layout.len() ==> pane_label((#[trigger] layout[i]).pane_number) != id,
        },
        forall|i: int|
            0 <= i < layout.len() && #[trigger] is_last(layout, i) && pane_label(
                layout[i].pane_number,
            ) == id ==> wanted(layout, id) == Some(layout[i]),
    decreases layout.len(),
{
    if layout.len() > 0 {
        let front = layout.drop_last();
        wanted_is_last(front, id);
        let n = layout.len() - 1;
        assert(forall|i: int| 0 <= i < n ==> #[trigger] layout[i] == front[i]);
        if pane_label(layout[n].pane_number) == id {
            assert(is_last(layout, n));
        } else {
            if let Some(lp) = wanted(front, id) {
                let i = choose|i: int|
                    0 <= i < front.len() && #[trigger] front[i] == lp && is_last(front, i)
                        && pane_label(lp.pane_number) == id;
                assert(layout[i] == lp);
                assert(is_last(layout, i));
            }
            assert forall|i: int|
                0 <= i < layout.len() && #[trigger] is_last(layout, i) && pane_label(
                    layout[i].pane_number,
                ) == id implies wanted(layout, id) == Some(layout[i]) by {
                assert(i < n);
                assert forall|j: int| i < j < front.len() implies pane_label(
                    (#[trigger] front[j]).pane_number,
                ) != pane_label(front[i].pane_number) by {
                    assert(layout[j] == front[j]);
                }
                assert(is_last(front, i));
            }
        }
    }
}

/// All watched panes of a session.
pub struct PaneRegistry {
    panes: Vec<TrackedPane>,
}

impl PaneRegistry {
    /// The panes.
    pub closed spec fn panes(&self) -> Seq<TrackedPane> {
        self.panes@
    }

    /// The pane with that identifier.
    pub open spec fn at(&self, id: Seq<char>) -> Option<TrackedPane> {
        pane_at(self.panes(), id)
    }

    /// No pane occurs twice, and every screen has its pane's size, or the nearest
    /// that a terminal can have.
    pub open spec fn valid(&self) -> bool {
        &&& distinct(self.panes())
        &&& forall|i: int|
            0 <= i < self.panes().len() ==> (#[trigger] self.panes()[i]).processor.valid()
    }

    /// A registry without panes.
    pub fn new() -> (r: Self)
        ensures
            r.valid(),
            r.panes() == Seq::<TrackedPane>::empty(),
    {
        let r = Self { panes: Vec::new() };
        assert(r.panes() =~= Seq::<TrackedPane>::empty());
        r
    }

    /// The place of a pane.
    fn position(&self, pane_id: &str) -> (r: Option<usize>)
        requires
            self.valid(),
        ensures
            match r {
                Some(i) => i < self.panes().len() && place_of(self.panes(), pane_id@) == i,
                None => place_of(self.panes(), pane_id@) < 0,
            },
    {
        let n: usize = self.panes.len();
        let mut i: usize = 0;
        while i < n
            invariant
                i <= n == self.panes().len(),
                self.valid(),
                forall|k: int| 0 <= k < i ==> (#[trigger] self.panes()[k]).pane_id@ != pane_id@,
            decreases n - i,
        {
            assert(self.panes()[i as int] == self.panes@[i as int]);
            if str_eq(self.panes[i].pane_id.as_str(), pane_id) {
                proof {
                    place_is_unique(self.panes(), i as int);
                }
                return Some(i);
            }
            i = i + 1;
        }
        proof {
            place_is_found(self.panes(), pane_id@);
        }
        None
    }

    /// Drop the panes of a window that its layout does not hold.
    fn drop_gone(&mut self, window_id: &str, layout: &[LayoutPane]) -> (r: Vec<SyncAction>)
        requires
            old(self).valid(),
        ensures
            final(self).panes() == staying(old(self).panes(), window_id@, layout@),
            actions(r@) == removals(old(self).panes(), window_id@, layout@),
    {
        let ghost all = self.panes@;
        let n: usize = self.panes.len();
        let mut out: Vec<SyncAction> = Vec::new();
        let mut kept: usize = 0;
        let mut seen: usize = 0;
        assert(all.subrange(0, 0) =~= Seq::<TrackedPane>::empty());
        assert(self.panes@ =~= Seq::<TrackedPane>::empty() + all.subrange(0, n as int));
        assert(actions(out@) =~= Seq::<ActionModel>::empty());
        while seen < n
            invariant
                kept <= seen <= n == all.len(),
                kept == staying(all.subrange(0, seen as int), window_id@, layout@).len(),
                self.panes@ == staying(all.subrange(0, seen as int), window_id@, layout@)
                    + all.subrange(seen as int, n as int),
                actions(out@) == removals(all.subrange(0, seen as int), window_id@, layout@),
            decreases n - seen,
        {
            let ghost front = all.subrange(0, seen as int);
            let ghost next = all.subrange(0, seen + 1);
            assert(next.drop_last() =~= front);
            assert(next.last() == all[seen as int]);
            assert(self.panes@[kept as int] == all[seen as int]);
            let is_gone = str_eq(self.panes[kept].window_id.as_str(), window_id) && !in_layout(
                layout,
                self.panes[kept].pane_id.as_str(),
            );
            assert(is_gone == gone(next.last(), window_id@, layout@));
            let ghost before = actions(out@);
            if is_gone {
                let t = self.panes.remove(kept);
                assert(self.panes@ =~= staying(next, window_id@, layout@) + all.subrange(
                    seen + 1,
                    n as int,
                ));
                out.push(SyncAction::PaneRemoved { pane_id: t.pane_id });
                assert(actions(out@) =~= before.push(ActionModel::PaneRemoved(next.last().pane_id@)));
            } else {
                kept = kept + 1;
                assert(self.panes@ =~= staying(next, window_id@, layout@) + all.subrange(
                    seen + 1,
                    n as int,
                ));
            }
            seen = seen + 1;
        }
        assert(all.subrange(0, n as int) =~= all);
        assert(self.panes@ =~= staying(all, window_id@, layout@));
        out
    }

    /// Bring the pane of a layout's entry up to date, or add it.
    fn sync_entry(&mut self, window_id: &str, lp: &LayoutPane) -> (r: Option<SyncAction>)
        requires
            old(self).valid(),
        ensures
            final(self).valid(),
            final(self).at(pane_label(lp.pane_number)) matches Some(t) && synced(
                old(self).at(pane_label(lp.pane_number)),
                t,
                window_id@,
                *lp,
            ),
            forall|id: Seq<char>|
                id != pane_label(lp.pane_number) ==> #[trigger] final(self).at(id) == old(self).at(
                    id,
                ),
            match r {
                Some(a) => entry_action(old(self).panes(), *lp) == Some(a@),
                None => entry_action(old(self).panes(), *lp) is None,
            },
    {
        let id = label(lp.pane_number);
        let ghost before = self.panes();
        match self.position(id.as_str()) {
            Some(i) => {
                proof {
                    place_is_found(before, id@);
                }
                assert(before[i as int] == self.panes@[i as int]);
                let action = self.panes[i].update(lp);
                proof {
                    let now = self.panes()[i as int];
                    assert(self.panes() =~= before.update(i as int, now));
                    replaced_is_found(before, i as int, now);
                }
                action
            },
            None => {
                let t = TrackedPane {
                    pane_id: id,
                    window_id: window_id.to_owned(),
                    pid: None,
                    x: lp.x,
                    y: lp.y,
                    processor: PaneProcessor::new(lp.height, lp.width),
                };
                self.panes.push(t);
                proof {
                    assert(self.panes() =~= before.push(t));
                    added_is_found(before, t);
                }
                Some(SyncAction::PaneAdded { pane_id: label(lp.pane_number) })
            },
        }
    }

    /// Bring the panes of a window in line with its layout: panes that it does
    /// not hold are dropped, new ones are added with a screen of their size, the
    /// others get their position and size. Returns what is to be done in tmux.
    pub fn apply_layout(&mut self, window_id: &str, layout_panes: &[LayoutPane]) -> (r: Vec<SyncAction>)
        requires
            old(self).valid(),
        ensures
            final(self).valid(),
            forall|id: Seq<char>|
                laid_out(
                    old(self).at(id),
                    #[trigger] final(self).at(id),
                    window_id@,
                    wanted(layout_panes@, id),
                ),
            actions(r@) == removals(old(self).panes(), window_id@, layout_panes@) + entry_actions(
                old(self).panes(),
                layout_panes@,
                layout_panes@.len() as int,
            ),
    {
        let ghost start = self.panes();
        let ghost layout = layout_panes@;
        let mut out = self.drop_gone(window_id, layout_panes);
        let ghost removed = actions(out@);
        let n: usize = layout_panes.len();
        let mut i: usize = 0;
        proof {
            staying_is_distinct(start, window_id@, layout);
            assert(self.valid());
            assert forall|id: Seq<char>| #[trigger] self.at(id) == base_at(start, window_id@, layout, id)
                by {
                staying_is_found(start, window_id@, layout, id);
            }
            assert(actions(out@) =~= removed + entry_actions(start, layout, 0));
        }
        while i < n
            invariant
                i <= n == layout_panes@.len(),
                layout == layout_panes@,
                self.valid(),
                distinct(start),
                forall|id: Seq<char>|
                    !entered(layout, i as int, id) ==> #[trigger] self.at(id) == base_at(
                        start,
                        window_id@,
                        layout,
                        id,
                    ),
                forall|id: Seq<char>|
                    entered(layout, i as int, id) ==> laid_out(
                        pane_at(start, id),
                        #[trigger] self.at(id),
                        window_id@,
                        wanted(layout, id),
                    ),
                actions(out@) == removed + entry_actions(start, layout, i as int),
            decreases n - i,
        {
            let ghost before = actions(out@);
            let ghost panes = self.panes();
            let ghost id = pane_label(layout[i as int].pane_number);
            let ghost was = *self;
            if last_entry(layout_panes, i) {
                proof {
                    wanted_is_last(layout, id);
                    assert(wanted(layout, id) == Some(layout[i as int]));
                    assert(!entered(layout, i as int, id)) by {
                        if entered(layout, i as int, id) {
                            let k = choose|k: int|
                                0 <= k < i && #[trigger] is_last(layout, k) && pane_label(
                                    layout[k].pane_number,
                                ) == id;
                            assert(pane_label(layout[i as int].pane_number) != pane_label(
                                layout[k].pane_number,
                            ));
                        }
                    }
                    assert(was.at(id) == base_at(start, window_id@, layout, id));
                    place_is_found(start, id);
                    assert(was.at(id) == pane_at(start, id));
                    assert(entry_action(panes, layout[i as int]) == entry_action(
                        start,
                        layout[i as int],
                    ));
                }
                let action = self.sync_entry(window_id, &layout_panes[i]);
                if let Some(a) = action {
                    let ghost view = a@;
                    out.push(a);
                    assert(actions(out@) =~= before.push(view));
                }
                assert(actions(out@) =~= removed + entry_actions(start, layout, i + 1));
                proof {
                    assert forall|other: Seq<char>|
                        entered(layout, i + 1, other) == (entered(layout, i as int, other) || other
                            == id) by {
                        entered_step(layout, i as int, other);
                    }
                    assert(self.at(id) is Some);
                }
            } else {
                proof {
                    assert forall|other: Seq<char>|
                        entered(layout, i + 1, other) == entered(layout, i as int, other) by {
                        entered_step(layout, i as int, other);
                    }
                }
            }
            i = i + 1;
        }
        proof {
            assert forall|id: Seq<char>|
                laid_out(pane_at(start, id), #[trigger] self.at(id), window_id@, wanted(layout, id)) by {
                wanted_is_last(layout, id);
                place_is_found(start, id);
                if let Some(lp) = wanted(layout, id) {
                    let k = choose|k: int|
                        0 <= k < layout.len() && #[trigger] layout[k] == lp && is_last(layout, k)
                            && pane_label(lp.pane_number) == id;
                    assert(is_last(layout, k) && pane_label(layout[k].pane_number) == id);
                    assert(entered(layout, n as int, id));
                } else {
                    assert(!entered(layout, n as int, id));
                }
            }
        }
        out
    }

    /// Set the process of a pane; nothing happens where the pane is not watched.
    pub fn set_pid(&mut self, pane_id: &str, pid: u32)
        requires
            old(self).valid(),
        ensures
            final(self).valid(),
            final(self).at(pane_id@) == (match old(self).at(pane_id@) {
                Some(t) => Some(TrackedPane { pid: Some(pid), ..t }),
                None => None,
            }),
            forall|id: Seq<char>|
                id != pane_id@ ==> #[trigger] final(self).at(id) == old(self).at(id),
    {
        let ghost before = self.panes();
        if let Some(i) = self.position(pane_id) {
            proof {
                place_is_found(before, pane_id@);
            }
            assert(before[i as int] == self.panes@[i as int]);
            self.panes[i].pid = Some(pid);
            proof {
                let now = self.panes()[i as int];
                assert(self.panes() =~= before.update(i as int, now));
                replaced_is_found(before, i as int, now);
            }
        }
    }

    /// Drop all panes of a window. Returns what is to be done in tmux.
    pub fn remove_window(&mut self, window_id: &str) -> (r: Vec<SyncAction>)
        requires
            old(self).valid(),
        ensures
            final(self).valid(),
            final(self).panes() == staying(old(self).panes(), window_id@, Seq::empty()),
            actions(r@) == removals(old(self).panes(), window_id@, Seq::empty()),
            forall|id: Seq<char>|
                laid_out(old(self).at(id), #[trigger] final(self).at(id), window_id@, None),
    {
        let ghost start = self.panes();
        let none: Vec<LayoutPane> = Vec::new();
        let out = self.drop_gone(window_id, none.as_slice());
        proof {
            assert(none@ =~= Seq::empty());
            staying_is_distinct(start, window_id@, none@);
            assert forall|id: Seq<char>|
                laid_out(pane_at(start, id), #[trigger] self.at(id), window_id@, None) by {
                staying_is_found(start, window_id@, none@, id);
            }
        }
        out
    }

    /// The processor of a pane, to be fed.
    pub fn get_processor_mut(&mut self, pane_id: &str) -> (r: Option<&mut PaneProcessor>)
        requires
            old(self).valid(),
        ensures
            match r {
                Some(p) => old(self).at(pane_id@) matches Some(t) && *p == t.processor
                    && final(self).panes() == old(self).panes().update(
                    place_of(old(self).panes(), pane_id@),
                    TrackedPane { processor: *final(p), ..t },
                ),
                None => old(self).at(pane_id@) is None && final(self).panes() == old(self).panes(),
            },
    {
        match self.position(pane_id) {
            Some(i) => Some(&mut self.panes[i].processor),
            None => None,
        }
    }

    /// A pane.
    pub fn get(&self, pane_id: &str) -> (r: Option<&TrackedPane>)
        requires
            self.valid(),
        ensures
            match r {
                Some(t) => self.at(pane_id@) == Some(*t),
                None => self.at(pane_id@) is None,
            },
    {
        match self.position(pane_id) {
            Some(i) => Some(&self.panes[i]),
            None => None,
        }
    }

    /// The window of a pane.
    pub fn window_for_pane(&self, pane_id: &str) -> (r: Option<&str>)
        requires
            self.valid(),
        ensures
            match r {
                Some(w) => self.at(pane_id@) matches Some(t) && t.window_id@ == w@,
                None => self.at(pane_id@) is None,
            },
    {
        match self.get(pane_id) {
            Some(t) => Some(t.window_id.as_str()),
            None => None,
        }
    }

    /// All panes.
    pub fn iter(&self) -> (r: &[TrackedPane])
        ensures
            r@ == self.panes(),
    {
        self.panes.as_slice()
    }

    /// Number of panes.
    pub fn len(&self) -> (r: usize)
        ensures
            r == self.panes().len(),
    {
        self.panes.len()
    }

    /// Whether there is no pane.
    pub fn is_empty(&self) -> (r: bool)
        ensures
            r == (self.panes().len() == 0),
    {
        self.panes.len() == 0
    }
}

impl Default for PaneRegistry {
    fn default() -> (r: Self)
        ensures
            r.valid(),
            r.panes() == Seq::<TrackedPane>::empty(),
    {
        Self::new()
    }
}

/// A layout that was applied asks for nothing more: applied to what it led to,
/// no pane goes, comes or changes its size.
pub proof fn applied_layout_is_settled(
    was: Seq<TrackedPane>,
    now: Seq<TrackedPane>,
    window: Seq<char>,
    layout: Seq<LayoutPane>,
    n: int,
)
    requires
        distinct(now),
        forall|id: Seq<char>|
            laid_out(pane_at(was, id), #[trigger] pane_at(now, id), window, wanted(layout, id)),
        0 <= n <= layout.len(),
    ensures
        removals(now, window, layout) == Seq::<ActionModel>::empty(),
        entry_actions(now, layout, n) == Seq::<ActionModel>::empty(),
    decreases n,
{
    assert forall|i: int| 0 <= i < now.len() implies !gone(#[trigger] now[i], window, layout) by {
        place_is_unique(now, i);
        assert(pane_at(now, now[i].pane_id@) == Some(now[i]));
    }
    none_removed(now, window, layout);
    if n > 0 {
        applied_layout_is_settled(was, now, window, layout, n - 1);
        if is_last(layout, n - 1) {
            let id = pane_label(layout[n - 1].pane_number);
            wanted_is_last(layout, id);
            assert(laid_out(pane_at(was, id), pane_at(now, id), window, wanted(layout, id)));
        }
    }
}

/// Whether a layout has an entry for the identifier.
pub open spec fn listed(layout: Seq<LayoutPane>, id: Seq<char>) -> bool {
    exists|i: int|
        0 <= i < layout.len() && pane_label((#[trigger] layout[i]).pane_number) == id
}

/// Whether an action is to be told where a layout is applied to what was there:
/// a pane that is new, one that is gone, or one whose size has changed.
pub open spec fn is_due(
    was: Seq<TrackedPane>,
    window: Seq<char>,
    layout: Seq<LayoutPane>,
    action: ActionModel,
) -> bool {
    match action {
        ActionModel::PaneAdded(id) => listed(layout, id) && pane_at(was, id) is None,
        ActionModel::PaneRemoved(id) => !listed(layout, id) && (pane_at(was, id) matches Some(t)
            && t.window_id@ == window),
        ActionModel::Resized { pane_id, width, height } => exists|i: int|
            {
                &&& 0 <= i < layout.len()
                &&& pane_label((#[trigger] layout[i]).pane_number) == pane_id
                &&& layout[i].width == width && layout[i].height == height
                &&& pane_at(was, pane_id) matches Some(t) && (t.processor.width() != width
                    || t.processor.lines() != height)
            },
    }
}

/// Numbers that differ have labels that differ.
proof fn labels_differ(m: u32, n: u32)
    requires
        m != n,
    ensures
        pane_label(m) != pane_label(n),
{
    decimal_is_read(m as nat);
    decimal_is_read(n as nat);
    assert(pane_label(m).subrange(1, pane_label(m).len() as int) =~= decimal(m as nat));
    assert(pane_label(n).subrange(1, pane_label(n).len() as int) =~= decimal(n as nat));
}

/// A layout has an entry for what is wanted of it.
proof fn wanted_is_listed(layout: Seq<LayoutPane>, id: Seq<char>)
    ensures
        wanted(layout, id) is Some <==> listed(layout, id),
{
    wanted_is_last(layout, id);
}

/// The panes that go are told once each, and no others.
proof fn removals_are_due(
    panes: Seq<TrackedPane>,
    n: int,
    window: Seq<char>,
    layout: Seq<LayoutPane>,
)
    requires
        distinct(panes),
        0 <= n <= panes.len(),
    ensures
        ({
            let told = removals(panes.subrange(0, n), window, layout);
            &&& told.no_duplicates()
            &&& forall|a: ActionModel| #[trigger]
                told.contains(a) ==> a is PaneRemoved && is_due(panes, window, layout, a)
            &&& forall|i: int|
                0 <= i < n && gone(#[trigger] panes[i], window, layout) ==> told.contains(
                    ActionModel::PaneRemoved(panes[i].pane_id@),
                )
            &&& forall|a: ActionModel| #[trigger]
                told.contains(a) ==> exists|i: int|
                    0 <= i < n && a == ActionModel::PaneRemoved((#[trigger] panes[i]).pane_id@)
        }),
    decreases n,
{
    if n > 0 {
        let front = panes.subrange(0, n - 1);
        let upto = panes.subrange(0, n);
        removals_are_due(panes, n - 1, window, layout);
        assert(upto.drop_last() =~= front);
        let before = removals(front, window, layout);
        let told = removals(upto, window, layout);
        let t = panes[n - 1];
        assert(upto.last() == t);
        let a = ActionModel::PaneRemoved(t.pane_id@);
        place_is_unique(panes, n - 1);
        wanted_is_listed(layout, t.pane_id@);
        assert(!before.contains(a)) by {
            if before.contains(a) {
                let i = choose|i: int|
                    0 <= i < n - 1 && a == ActionModel::PaneRemoved((#[trigger] panes[i]).pane_id@);
                assert(panes[i].pane_id@ != panes[n - 1].pane_id@);
            }
        }
        if gone(t, window, layout) {
            assert(told == before.push(a));
            assert forall|b: ActionModel| #[trigger] told.contains(b) == (before.contains(b) || b
                == a) by {
                pushed_is_held(before, a, b);
            }
            assert(told.no_duplicates()) by {
                assert forall|i: int, j: int|
                    0 <= i < told.len() && 0 <= j < told.len() && i != j implies told[i]
                    != told[j] by {
                    if i < before.len() {
                        assert(before.contains(before[i]));
                    }
                    if j < before.len() {
                        assert(before.contains(before[j]));
                    }
                }
            }
            assert(is_due(panes, window, layout, a));
        }
        assert forall|b: ActionModel| #[trigger] told.contains(b) implies exists|i: int|
            0 <= i < n && b == ActionModel::PaneRemoved((#[trigger] panes[i]).pane_id@) by {
            if before.contains(b) {
                let i = choose|i: int|
                    0 <= i < n - 1 && b == ActionModel::PaneRemoved((#[trigger] panes[i]).pane_id@);
                assert(b == ActionModel::PaneRemoved(panes[i].pane_id@));
            } else {
                assert(b == ActionModel::PaneRemoved(panes[n - 1].pane_id@));
            }
        }
    }
}

/// What a sequence holds with one more element.
proof fn pushed_is_held(s: Seq<ActionModel>, a: ActionModel, b: ActionModel)
    ensures
        s.push(a).contains(b) == (s.contains(b) || b == a),
{
    let r = s.push(a);
    if r.contains(b) {
        let i = choose|i: int| 0 <= i < r.len() && r[i] == b;
        if i < s.len() {
            assert(s[i] == b);
        }
    }
    if s.contains(b) {
        let i = choose|i: int| 0 <= i < s.len() && s[i] == b;
        assert(r[i] == b);
    }
    if b == a {
        assert(r[s.len() as int] == b);
    }
}

/// The identifier that an action is about.
spec fn subject(a: ActionModel) -> Seq<char> {
    match a {
        ActionModel::PaneAdded(id) => id,
        ActionModel::PaneRemoved(id) => id,
        ActionModel::Resized { pane_id, .. } => pane_id,
    }
}

/// What the entries ask for is told once each, and nothing else.
proof fn entries_are_due(was: Seq<TrackedPane>, window: Seq<char>, layout: Seq<LayoutPane>, n: int)
    requires
        forall|i: int, j: int|
            0 <= i < j < layout.len() ==> (#[trigger] layout[i]).pane_number != (
            #[trigger] layout[j]).pane_number,
        0 <= n <= layout.len(),
    ensures
        ({
            let told = entry_actions(was, layout, n);
            &&& told.no_duplicates()
            &&& forall|a: ActionModel| #[trigger]
                told.contains(a) ==> {
                    &&& !(a is PaneRemoved)
                    &&& is_due(was, window, layout, a)
                    &&& exists|i: int|
                        0 <= i < n && subject(a) == pane_label((#[trigger] layout[i]).pane_number)
                }
            &&& forall|i: int|
                0 <= i < n ==> (match entry_action(was, #[trigger] layout[i]) {
                    Some(a) => told.contains(a),
                    None => true,
                })
        }),
    decreases n,
{
    if n > 0 {
        entries_are_due(was, window, layout, n - 1);
        let lp = layout[n - 1];
        let id = pane_label(lp.pane_number);
        let before = entry_actions(was, layout, n - 1);
        let told = entry_actions(was, layout, n);
        assert(is_last(layout, n - 1)) by {
            assert forall|j: int| n - 1 < j < layout.len() implies pane_label(
                (#[trigger] layout[j]).pane_number,
            ) != id by {
                assert(layout[n - 1].pane_number != layout[j].pane_number);
                labels_differ(layout[n - 1].pane_number, layout[j].pane_number);
            }
        }
        match entry_action(was, lp) {
            Some(a) => {
                assert(subject(a) == id);
                assert(!before.contains(a)) by {
                    if before.contains(a) {
                        let i = choose|i: int|
                            0 <= i < n - 1 && subject(a) == pane_label(
                                (#[trigger] layout[i]).pane_number,
                            );
                        assert(layout[i].pane_number != layout[n - 1].pane_number);
                        labels_differ(layout[i].pane_number, layout[n - 1].pane_number);
                    }
                }
                assert(is_due(was, window, layout, a)) by {
                    assert(pane_label(layout[n - 1].pane_number) == id);
                }
                assert forall|b: ActionModel| #[trigger] told.contains(b) == (before.contains(b) || b
                    == a) by {
                    pushed_is_held(before, a, b);
                }
                assert(told.no_duplicates()) by {
                    assert forall|i: int, j: int|
                        0 <= i < told.len() && 0 <= j < told.len() && i != j implies told[i]
                        != told[j] by {
                        if i < before.len() {
                            assert(before.contains(before[i]));
                        }
                        if j < before.len() {
                            assert(before.contains(before[j]));
                        }
                    }
                }
                assert forall|b: ActionModel| #[trigger] told.contains(b) implies {
                    &&& !(b is PaneRemoved)
                    &&& is_due(was, window, layout, b)
                    &&& exists|i: int|
                        0 <= i < n && subject(b) == pane_label((#[trigger] layout[i]).pane_number)
                } by {
                    if before.contains(b) {
                        let i = choose|i: int|
                            0 <= i < n - 1 && subject(b) == pane_label(
                                (#[trigger] layout[i]).pane_number,
                            );
                        assert(subject(b) == pane_label(layout[i].pane_number));
                    } else {
                        assert(subject(b) == pane_label(layout[n - 1].pane_number));
                    }
                }
            },
            None => {},
        }
    }
}

/// What applying a layout comes to, where it names each pane once and none of
/// another window. The panes of the window are then those of the layout, and the
/// panes of other windows are as before. Each pane that is new, gone or of
/// another size is told, once, and nothing else is. Applied again, the layout
/// asks for nothing.
pub proof fn layout_is_applied(
    was: Seq<TrackedPane>,
    now: Seq<TrackedPane>,
    window: Seq<char>,
    layout: Seq<LayoutPane>,
)
    requires
        distinct(was),
        distinct(now),
        forall|id: Seq<char>|
            laid_out(pane_at(was, id), #[trigger] pane_at(now, id), window, wanted(layout, id)),
        forall|i: int, j: int|
            0 <= i < j < layout.len() ==> (#[trigger] layout[i]).pane_number != (
            #[trigger] layout[j]).pane_number,
        forall|i: int|
            0 <= i < layout.len() ==> (pane_at(was, pane_label((#[trigger] layout[i]).pane_number))
                matches Some(t) ==> t.window_id@ == window),
    ensures
        forall|id: Seq<char>|
            listed(layout, id) <==> (#[trigger] pane_at(now, id) matches Some(t) && t.window_id@
                == window),
        forall|id: Seq<char>|
            (pane_at(was, id) matches Some(t) && t.window_id@ != window) || (#[trigger] pane_at(
                now,
                id,
            ) matches Some(t) && t.window_id@ != window) ==> pane_at(now, id) == pane_at(was, id),
        ({
            let told = removals(was, window, layout) + entry_actions(
                was,
                layout,
                layout.len() as int,
            );
            &&& told.no_duplicates()
            &&& forall|a: ActionModel| #[trigger]
                told.contains(a) <==> is_due(was, window, layout, a)
        }),
        removals(now, window, layout) + entry_actions(now, layout, layout.len() as int) == Seq::<
            ActionModel,
        >::empty(),
{
    let n = layout.len() as int;
    assert forall|id: Seq<char>|
        listed(layout, id) <==> (#[trigger] pane_at(now, id) matches Some(t) && t.window_id@
            == window) by {
        wanted_is_listed(layout, id);
        assert(laid_out(pane_at(was, id), pane_at(now, id), window, wanted(layout, id)));
    }
    assert forall|id: Seq<char>|
        (pane_at(was, id) matches Some(t) && t.window_id@ != window) || (#[trigger] pane_at(now, id)
            matches Some(t) && t.window_id@ != window) implies pane_at(now, id) == pane_at(was, id) by {
        wanted_is_listed(layout, id);
        assert(laid_out(pane_at(was, id), pane_at(now, id), window, wanted(layout, id)));
    }
    let out = removals(was, window, layout);
    let ins = entry_actions(was, layout, n);
    let told = out + ins;
    assert(was.subrange(0, was.len() as int) =~= was);
    removals_are_due(was, was.len() as int, window, layout);
    entries_are_due(was, window, layout, n);
    assert forall|a: ActionModel| #[trigger] told.contains(a) == (out.contains(a) || ins.contains(a))
        by {
        if told.contains(a) {
            let i = choose|i: int| 0 <= i < told.len() && told[i] == a;
            if i < out.len() {
                assert(out[i] == a);
            } else {
                assert(ins[i - out.len()] == a);
            }
        }
        if out.contains(a) {
            let i = choose|i: int| 0 <= i < out.len() && out[i] == a;
            assert(told[i] == a);
        }
        if ins.contains(a) {
            let i = choose|i: int| 0 <= i < ins.len() && ins[i] == a;
            assert(told[out.len() + i] == a);
        }
    }
    assert(told.no_duplicates()) by {
        assert forall|i: int, j: int|
            0 <= i < told.len() && 0 <= j < told.len() && i != j implies told[i] != told[j] by {
            if i < out.len() {
                assert(out.contains(out[i]));
            } else {
                assert(ins.contains(ins[i - out.len()]));
            }
            if j < out.len() {
                assert(out.contains(out[j]));
            } else {
                assert(ins.contains(ins[j - out.len()]));
            }
        }
    }
    assert forall|a: ActionModel| is_due(was, window, layout, a) implies #[trigger] told.contains(
        a,
    ) by {
        let id = subject(a);
        place_is_found(was, id);
        match a {
            ActionModel::PaneAdded(_) => {
                let i = choose|i: int|
                    0 <= i < layout.len() && pane_label((#[trigger] layout[i]).pane_number) == id;
                assert(entry_action(was, layout[i]) == Some(a));
            },
            ActionModel::PaneRemoved(_) => {
                let k = place_of(was, id);
                wanted_is_listed(layout, id);
                assert(gone(was[k], window, layout));
            },
            ActionModel::Resized { pane_id, width, height } => {
                let i = choose|i: int|
                    {
                        &&& 0 <= i < layout.len()
                        &&& pane_label((#[trigger] layout[i]).pane_number) == pane_id
                        &&& layout[i].width == width && layout[i].height == height
                        &&& pane_at(was, pane_id) matches Some(t) && (t.processor.width() != width
                            || t.processor.lines() != height)
                    };
                assert(entry_action(was, layout[i]) == Some(a));
            },
        }
    }
    applied_layout_is_settled(was, now, window, layout, n);
    assert(removals(now, window, layout) + entry_actions(now, layout, n) =~= Seq::<
        ActionModel,
    >::empty());
}

/// Where no pane is gone, none is removed.
proof fn none_removed(panes: Seq<TrackedPane>, window: Seq<char>, layout: Seq<LayoutPane>)
    requires
        forall|i: int| 0 <= i < panes.len() ==> !gone(#[trigger] panes[i], window, layout),
    ensures
        removals(panes, window, layout) == Seq::<ActionModel>::empty(),
    decreases panes.len(),
{
    if panes.len() > 0 {
        let front = panes.drop_last();
        assert(forall|i: int| 0 <= i < front.len() ==> #[trigger] front[i] == panes[i]);
        none_removed(front, window, layout);
    }
}

/// No pane of a removed window stays, and each that goes is told.
pub proof fn removed_window_has_no_panes(
    panes: Seq<TrackedPane>,
    window: Seq<char>,
)
    requires
        distinct(panes),
    ensures
        forall|i: int|
            0 <= i < staying(panes, window, Seq::empty()).len() ==> (#[trigger] staying(
                panes,
                window,
                Seq::empty(),
            )[i]).window_id@ != window,
        removals(panes, window, Seq::empty()).len() + staying(panes, window, Seq::empty()).len()
            == panes.len(),
    decreases panes.len(),
{
    if panes.len() > 0 {
        removed_window_has_no_panes(panes.drop_last(), window);
    }
}

/// Whether one of the first `n` entries of a layout counts for the identifier.
spec fn entered(layout: Seq<LayoutPane>, n: int, id: Seq<char>) -> bool {
    exists|k: int|
        0 <= k < n && #[trigger] is_last(layout, k) && pane_label(layout[k].pane_number) == id
}

/// One entry more counts for its own identifier only.
proof fn entered_step(layout: Seq<LayoutPane>, n: int, id: Seq<char>)
    requires
        0 <= n < layout.len(),
    ensures
        entered(layout, n + 1, id) == (entered(layout, n, id) || (is_last(layout, n) && pane_label(
            layout[n].pane_number,
        ) == id)),
{
    if entered(layout, n, id) {
        let k = choose|k: int|
            0 <= k < n && #[trigger] is_last(layout, k) && pane_label(layout[k].pane_number) == id;
        assert(is_last(layout, k));
    }
    if is_last(layout, n) && pane_label(layout[n].pane_number) == id {
        assert(entered(layout, n + 1, id));
    }
}

/// The pane with that identifier once the panes that left are dropped.
spec fn base_at(
    panes: Seq<TrackedPane>,
    window: Seq<char>,
    layout: Seq<LayoutPane>,
    id: Seq<char>,
) -> Option<TrackedPane> {
    match pane_at(panes, id) {
        Some(t) => if gone(t, window, layout) {
            None
        } else {
            Some(t)
        },
        None => None,
    }
}

/// Whether a pane is what a window's layout makes of what was there: the entry
/// for it where there is one, or else nothing if it was in that window, or else
/// as before.
pub open spec fn laid_out(
    was: Option<TrackedPane>,
    now: Option<TrackedPane>,
    window: Seq<char>,
    entry: Option<LayoutPane>,
) -> bool {
    match entry {
        Some(lp) => now matches Some(t) && synced(was, t, window, lp),
        None => match was {
            Some(t) => if t.window_id@ == window {
                now is None
            } else {
                now == was
            },
            None => now is None,
        },
    }
}

impl TrackedPane {
    /// Take position and size from a layout's entry.
    fn update(&mut self, lp: &LayoutPane) -> (r: Option<SyncAction>)
        requires
            old(self).processor.valid(),
            old(self).pane_id@ == pane_label(lp.pane_number),
        ensures
            synced(Some(*old(self)), *final(self), Seq::empty(), *lp),
            match r {
                Some(a) => a@ == (ActionModel::Resized {
                    pane_id: pane_label(lp.pane_number),
                    width: lp.width as int,
                    height: lp.height as int,
                }) && (old(self).processor.width() != lp.width || old(self).processor.lines()
                    != lp.height),
                None => old(self).processor.width() == lp.width && old(self).processor.lines()
                    == lp.height,
            },
    {
        self.x = lp.x;
        self.y = lp.y;
        let width: usize = self.processor.columns();
        let height: usize = self.processor.screen_lines();
        if lp.width != width || lp.height != height {
            self.processor.resize(lp.height, lp.width);
            Some(
                SyncAction::Resized {
                    pane_id: label(lp.pane_number),
                    width: lp.width,
                    height: lp.height,
                },
            )
        } else {
            None
        }
    }
}

/// A pane put in the place of one with the same identifier is found, and the
/// others as before.
pub(crate) proof fn replaced_is_found(panes: Seq<TrackedPane>, i: int, now: TrackedPane)
    requires
        distinct(panes),
        0 <= i < panes.len(),
        panes[i].pane_id@ == now.pane_id@,
    ensures
        distinct(panes.update(i, now)),
        pane_at(panes.update(i, now), now.pane_id@) == Some(now),
        forall|id: Seq<char>|
            id != now.pane_id@ ==> #[trigger] pane_at(panes.update(i, now), id) == pane_at(panes, id),
{
    let after = panes.update(i, now);
    assert forall|j: int, k: int| 0 <= j < k < after.len() implies (#[trigger] after[j]).pane_id@
        != (#[trigger] after[k]).pane_id@ by {
        assert(panes[j].pane_id@ == after[j].pane_id@);
        assert(panes[k].pane_id@ == after[k].pane_id@);
    }
    place_is_unique(after, i);
    assert forall|id: Seq<char>| id != now.pane_id@ implies #[trigger] pane_at(after, id) == pane_at(
        panes,
        id,
    ) by {
        place_is_found(after, id);
        place_is_found(panes, id);
        let k = place_of(panes, id);
        if k >= 0 {
            assert(after[k].pane_id@ == id);
            place_is_unique(after, k);
        } else {
            let l = place_of(after, id);
            if l >= 0 {
                assert(panes[l].pane_id@ == after[l].pane_id@);
            }
        }
    }
}

/// A pane with a new identifier is found once it is added, and the others as
/// before.
proof fn added_is_found(panes: Seq<TrackedPane>, t: TrackedPane)
    requires
        distinct(panes),
        place_of(panes, t.pane_id@) < 0,
    ensures
        distinct(panes.push(t)),
        pane_at(panes.push(t), t.pane_id@) == Some(t),
        forall|id: Seq<char>|
            id != t.pane_id@ ==> #[trigger] pane_at(panes.push(t), id) == pane_at(panes, id),
{
    let after = panes.push(t);
    place_is_found(panes, t.pane_id@);
    assert(after.drop_last() =~= panes);
    assert forall|id: Seq<char>| id != t.pane_id@ implies #[trigger] pane_at(after, id) == pane_at(
        panes,
        id,
    ) by {
        place_is_found(panes, id);
    }
}

/// Whether a layout holds the pane.
fn in_layout(layout: &[LayoutPane], pane_id: &str) -> (r: bool)
    ensures
        r == wanted(layout@, pane_id@) is Some,
{
    let mut i: usize = 0;
    while i < layout.len()
        invariant
            i <= layout@.len(),
            forall|k: int|
                0 <= k < i ==> pane_label((#[trigger] layout@[k]).pane_number) != pane_id@,
        decreases layout.len() - i,
    {
        let id = label(layout[i].pane_number);
        if str_eq(id.as_str(), pane_id) {
            proof {
                wanted_is_last(layout@, pane_id@);
                assert(pane_label(layout@[i as int].pane_number) == pane_id@);
            }
            return true;
        }
        i = i + 1;
    }
    proof {
        wanted_is_last(layout@, pane_id@);
    }
    false
}

/// Whether no later entry is for the same pane.
fn last_entry(layout: &[LayoutPane], i: usize) -> (r: bool)
    requires
        i < layout@.len(),
    ensures
        r == is_last(layout@, i as int),
{
    let id = label(layout[i].pane_number);
    let mut j: usize = i + 1;
    while j < layout.len()
        invariant
            i < j <= layout@.len(),
            id@ == pane_label(layout@[i as int].pane_number),
            forall|k: int| i < k < j ==> pane_label((#[trigger] layout@[k]).pane_number) != id@,
        decreases layout.len() - j,
    {
        let other = label(layout[j].pane_number);
        if str_eq(id.as_str(), other.as_str()) {
            assert(!is_last(layout@, i as int)) by {
                assert(pane_label(layout@[j as int].pane_number) == id@);
            }
            return false;
        }
        j = j + 1;
    }
    true
}

} // verus!
