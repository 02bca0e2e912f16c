//! What the daemon does about what tmux tells it.

use crate::pane::registry::{
    actions, entry_actions, laid_out, pane_at, place_of, removals, wanted, ActionModel, PaneRegistry,
    SyncAction,
};
use crate::parse::escape::{unescape_tmux_output, unescaped};
use crate::parse::layout::{layout_panes, parse_layout, LayoutPane};
use crate::text::texts;
use crate::tmux::connection::{
    disable_pane_output, enable_pane_output, output_text, query_pane_pid,
};
use crate::tmux::notification::{layout_change, layout_change_of, Notification, NotificationModel};
use vstd::prelude::*;

verus! {

/// What follows from a notification.
#[derive(Debug, Clone, PartialEq, Eq)]
pub enum EventStep {
    /// Do this in tmux, and go on.
    Continue(Vec<SyncAction>),
    /// The session has ended.
    Stop,
}

/// Whether a registry is what a window's layout makes of what was there.
pub open spec fn registry_laid_out(
    was: PaneRegistry,
    now: PaneRegistry,
    window: Seq<char>,
    layout: Seq<LayoutPane>,
) -> bool {
    forall|id: Seq<char>|
        laid_out(was.at(id), #[trigger] now.at(id), window, wanted(layout, id))
}

/// Whether the counters of a pane leave room for a chunk of that length.
pub open spec fn has_room(registry: PaneRegistry, pane_id: Seq<char>, n: int) -> bool {
    registry.at(pane_id) matches Some(t) && t.processor.state@.seq_counter + n <= u64::MAX
        && t.processor.state@.completion_seq + n <= u64::MAX
}

/// Whether a registry is what bytes of a pane make of what was there: the pane
/// took them in at `now`, the others are as before.
pub open spec fn registry_fed(
    was: PaneRegistry,
    now: PaneRegistry,
    pane_id: Seq<char>,
    bytes: Seq<u8>,
    time: u64,
) -> bool {
    let i = place_of(was.panes(), pane_id);
    &&& now.panes().len() == was.panes().len()
    &&& forall|k: int| 0 <= k < was.panes().len() && k != i ==> now.panes()[k] == was.panes()[k]
    &&& {
        let a = was.panes()[i];
        let b = now.panes()[i];
        &&& b.pane_id == a.pane_id && b.window_id == a.window_id && b.pid == a.pid
        &&& b.x == a.x && b.y == a.y
        &&& b.processor.track() == a.processor.track().at_time(time).data_seen().chunk(bytes)
        &&& b.processor.lines() == a.processor.lines()
        &&& b.processor.width() == a.processor.width()
    }
}

/// A pane has put out bytes.
pub fn feed_pane(registry: &mut PaneRegistry, pane_id: &str, data: &str, now: u64)
    requires
        old(registry).valid(),
    ensures
        final(registry).valid(),
        ({
            let bytes = unescaped(vstd::utf8::encode_utf8(data@));
            if has_room(*old(registry), pane_id@, bytes.len() as int) {
                registry_fed(*old(registry), *final(registry), pane_id@, bytes, now)
            } else {
                final(registry).panes() == old(registry).panes()
            }
        }),
{
    let bytes = unescape_tmux_output(data);
    let n: u64 = bytes.len() as u64;
    let ghost before = registry.panes();
    let ghost place = place_of(before, pane_id@);
    let room = match registry.get(pane_id) {
        Some(t) => t.processor.state.seq_counter <= u64::MAX - n
            && t.processor.state.completion_seq <= u64::MAX - n,
        None => false,
    };
    if !room {
        return ;
    }
    proof {
        crate::pane::registry::place_is_found(before, pane_id@);
    }
    if let Some(p) = registry.get_processor_mut(pane_id) {
        p.state.set_clock(now);
        p.process_chunk(bytes.as_slice());
    }
    proof {
        let t = registry.panes()[place];
        assert(registry.panes() =~= before.update(place, t));
        crate::pane::registry::replaced_is_found(before, place, t);
        assert forall|i: int| 0 <= i < registry.panes().len() implies (
        #[trigger] registry.panes()[i]).processor.valid() by {
            if i != place {
                assert(registry.panes()[i] == before[i]);
            }
        }
    }
}

/// Act on a notification.
pub fn handle_notification(registry: &mut PaneRegistry, notification: &Notification, now: u64) -> (r:
    EventStep)
    requires
        old(registry).valid(),
    ensures
        final(registry).valid(),
        match notification@ {
            NotificationModel::WindowClose { window_id } => {
                &&& r matches EventStep::Continue(v) && actions(v@) == removals(
                    old(registry).panes(),
                    window_id,
                    Seq::empty(),
                )
                &&& registry_laid_out(*old(registry), *final(registry), window_id, Seq::empty())
            },
            NotificationModel::Output { pane_id, data } => {
                let bytes = unescaped(vstd::utf8::encode_utf8(data));
                &&& r matches EventStep::Continue(v) && v@.len() == 0
                &&& if has_room(*old(registry), pane_id, bytes.len() as int) {
                    registry_fed(*old(registry), *final(registry), pane_id, bytes, now)
                } else {
                    final(registry).panes() == old(registry).panes()
                }
            },
            NotificationModel::Exit { .. } => r is Stop && final(registry).panes() == old(
                registry,
            ).panes(),
            NotificationModel::SessionClose { .. } => r is Stop && final(registry).panes() == old(
                registry,
            ).panes(),
            NotificationModel::Other { line } => match layout_change_of(line) {
                Some((window, text)) => {
                    let layout = layout_panes(vstd::utf8::encode_utf8(text));
                    &&& r matches EventStep::Continue(v) && actions(v@) == removals(
                        old(registry).panes(),
                        window,
                        layout,
                    ) + entry_actions(old(registry).panes(), layout, layout.len() as int)
                    &&& registry_laid_out(*old(registry), *final(registry), window, layout)
                },
                None => {
                    &&& r matches EventStep::Continue(v) && v@.len() == 0
                    &&& final(registry).panes() == old(registry).panes()
                },
            },
        },
{
    match notification {
        Notification::WindowClose { window_id } => {
            proof {
                assert(forall|id: Seq<char>| wanted(Seq::<LayoutPane>::empty(), id) is None);
            }
            EventStep::Continue(registry.remove_window(window_id.as_str()))
        },
        Notification::Output { pane_id, data } => {
            feed_pane(registry, pane_id.as_str(), data.as_str(), now);
            EventStep::Continue(Vec::new())
        },
        Notification::Exit { .. } => EventStep::Stop,
        Notification::SessionClose { .. } => EventStep::Stop,
        Notification::Other { line } => match layout_change(line.as_str()) {
            Some((window, text)) => {
                let layout = parse_layout(text.as_str());
                EventStep::Continue(registry.apply_layout(window.as_str(), layout.as_slice()))
            },
            None => EventStep::Continue(Vec::new()),
        },
    }
}

/// The commands that carry out an action in tmux. A pane that was added is then
/// asked for its process.
pub fn action_commands(action: &SyncAction) -> (r: Vec<String>)
    ensures
        texts(r@) == (match action@ {
            ActionModel::PaneAdded(id) => seq![
                output_text(id, true),
                "display-message -p -t "@ + id + " '#{pane_pid}'"@,
            ],
            ActionModel::PaneRemoved(id) => seq![output_text(id, false)],
            ActionModel::Resized { .. } => Seq::empty(),
        }),
{
    let mut out: Vec<String> = Vec::new();
    match action {
        SyncAction::PaneAdded { pane_id } => {
            out.push(enable_pane_output(pane_id.as_str()));
            out.push(query_pane_pid(pane_id.as_str()));
        },
        SyncAction::PaneRemoved { pane_id } => {
            out.push(disable_pane_output(pane_id.as_str()));
        },
        SyncAction::Resized { .. } => {},
    }
    assert(texts(out@) =~= (match action@ {
        ActionModel::PaneAdded(id) => seq![
            output_text(id, true),
            "display-message -p -t "@ + id + " '#{pane_pid}'"@,
        ],
        ActionModel::PaneRemoved(id) => seq![output_text(id, false)],
        ActionModel::Resized { .. } => Seq::empty(),
    }));
    out
}

/// What a pane puts out changes no other pane, and of the pane itself neither its
/// window, its process nor its place.
pub proof fn output_is_of_one_pane(
    was: PaneRegistry,
    now: PaneRegistry,
    pane_id: Seq<char>,
    bytes: Seq<u8>,
    time: u64,
    id: Seq<char>,
)
    requires
        was.valid(),
        was.at(pane_id) is Some,
        registry_fed(was, now, pane_id, bytes, time),
    ensures
        id != pane_id ==> now.at(id) == was.at(id),
        was.at(pane_id) matches Some(a) && (now.at(pane_id) matches Some(b) && b.pane_id@ == pane_id
            && b.window_id == a.window_id && b.pid == a.pid && b.processor.track()
            == a.processor.track().at_time(time).data_seen().chunk(bytes)),
{
    let panes = was.panes();
    let i = place_of(panes, pane_id);
    crate::pane::registry::place_is_found(panes, pane_id);
    let t = now.panes()[i];
    assert(now.panes() =~= panes.update(i, t));
    crate::pane::registry::replaced_is_found(panes, i, t);
    assert(pane_at(panes, pane_id) == Some(panes[i]));
}

} // verus!
