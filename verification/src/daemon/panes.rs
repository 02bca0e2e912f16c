//! The list of panes that is answered to a caller, and the time a daemon stays
//! without callers.

use crate::daemon::rpc::{resolve_caller_window, RpcError, INVALID_PARAMS};
use crate::pane::registry::{PaneRegistry, TrackedPane};
use crate::pane::state::{cached, Activity};
use crate::proc::{foreground_comm, foreground_name, get_leaf_pid, leaf_of, ProcInfo};
use crate::text::{chars_of, opt_text, str_eq};
use vstd::prelude::*;

verus! {

/// What is known of the shell integration of a pane.
#[derive(Debug, Clone, Copy, PartialEq, Eq, Structural)]
pub enum MarkerStatus {
    Confirmed,
    Failed,
    Unknown,
}

impl MarkerStatus {
    /// Its name.
    pub open spec fn text(self) -> Seq<char> {
        match self {
            MarkerStatus::Confirmed => "confirmed"@,
            MarkerStatus::Failed => "failed"@,
            MarkerStatus::Unknown => "unknown"@,
        }
    }

    /// Its name.
    pub fn name(&self) -> (r: &'static str)
        ensures
            r@ == self.text(),
    {
        match self {
            MarkerStatus::Confirmed => "confirmed",
            MarkerStatus::Failed => "failed",
            MarkerStatus::Unknown => "unknown",
        }
    }
}

/// A pane as it is listed.
#[derive(Debug, Clone, PartialEq, Eq)]
pub struct PaneEntry {
    pub pane_id: String,
    pub pid: Option<u32>,
    pub width: usize,
    pub height: usize,
    pub x: usize,
    pub y: usize,
    /// The directory of the local process.
    pub process_cwd: Option<String>,
    /// The directory that OSC 7 tells.
    pub osc_cwd: Option<String>,
    /// The user that OSC 7 tells.
    pub osc_user: Option<String>,
    /// The host that OSC 7 tells, unless it is the local one.
    pub osc_hostname: Option<String>,
    pub foreground: Option<String>,
    pub activity: Activity,
    /// Nanoseconds since the last marker.
    pub marker_age: Option<u64>,
    /// Nanoseconds since the last byte.
    pub data_age: Option<u64>,
    pub osc133_status: MarkerStatus,
}

/// A pane as it is listed, mathematically.
pub ghost struct EntryModel {
    pub pane_id: Seq<char>,
    pub pid: Option<u32>,
    pub width: int,
    pub height: int,
    pub x: int,
    pub y: int,
    pub process_cwd: Option<Seq<char>>,
    pub osc_cwd: Option<Seq<char>>,
    pub osc_user: Option<Seq<char>>,
    pub osc_hostname: Option<Seq<char>>,
    pub foreground: Option<Seq<char>>,
    pub activity: Activity,
    pub marker_age: Option<u64>,
    pub data_age: Option<u64>,
    pub osc133_status: MarkerStatus,
}

impl View for PaneEntry {
    type V = EntryModel;

    open spec fn view(&self) -> EntryModel {
        EntryModel {
            pane_id: self.pane_id@,
            pid: self.pid,
            width: self.width as int,
            height: self.height as int,
            x: self.x as int,
            y: self.y as int,
            process_cwd: opt_text(self.process_cwd),
            osc_cwd: opt_text(self.osc_cwd),
            osc_user: opt_text(self.osc_user),
            osc_hostname: opt_text(self.osc_hostname),
            foreground: opt_text(self.foreground),
            activity: self.activity,
            marker_age: self.marker_age,
            data_age: self.data_age,
            osc133_status: self.osc133_status,
        }
    }
}

/// The time since something happened, if it did.
pub open spec fn age(since: Option<u64>, now: u64) -> Option<u64> {
    match since {
        Some(t) => Some(
            if t < now {
                (now - t) as u64
            } else {
                0
            },
        ),
        None => None,
    }
}

/// The directory of a process.
pub open spec fn cwd_of(info: Option<ProcInfo>) -> Option<Seq<char>> {
    match info {
        Some(i) => opt_text(i.cwd),
        None => None,
    }
}

/// What is known of a process, where the pane has one.
pub open spec fn info_of(t: TrackedPane, info: Option<ProcInfo>) -> Option<ProcInfo> {
    if t.pid is Some {
        info
    } else {
        None
    }
}

/// A pane as it is listed: `info` tells of its process, `host` is the name of
/// the local host.
pub open spec fn entry_of(t: TrackedPane, info: Option<ProcInfo>, host: Seq<char>, now: u64) -> EntryModel {
    let s = t.processor.state@;
    let known = info_of(t, info);
    let leaf = match t.pid {
        Some(pid) => leaf_of(pid, info),
        None => 0,
    };
    EntryModel {
        pane_id: t.pane_id@,
        pid: t.pid,
        width: t.processor.width(),
        height: t.processor.lines(),
        x: t.x as int,
        y: t.y as int,
        process_cwd: cwd_of(known),
        osc_cwd: s.cwd,
        osc_user: s.user,
        osc_hostname: match s.hostname {
            Some(h) => if h == host {
                None
            } else {
                Some(h)
            },
            None => None,
        },
        foreground: foreground_name(known),
        activity: s.activity,
        marker_age: age(s.last_osc133_marker, now),
        data_age: age(s.last_data, now),
        osc133_status: match cached(s.osc133_cache, leaf) {
            Some(true) => MarkerStatus::Confirmed,
            Some(false) => MarkerStatus::Failed,
            None => MarkerStatus::Unknown,
        },
    }
}

/// The time since something happened, if it did.
fn age_of(since: Option<u64>, now: u64) -> (r: Option<u64>)
    ensures
        r == age(since, now),
{
    match since {
        Some(t) => Some(
            if t < now {
                now - t
            } else {
                0
            },
        ),
        None => None,
    }
}

/// A pane as it is listed.
pub fn pane_entry(t: &TrackedPane, info: &Option<ProcInfo>, local_hostname: &str, now: u64) -> (r:
    PaneEntry)
    requires
        t.processor.valid(),
    ensures
        r@ == entry_of(*t, *info, local_hostname@, now),
{
    let state = t.processor.state();
    let (process_cwd, foreground, leaf): (Option<String>, Option<String>, u32) = match t.pid {
        Some(pid) => (
            match info {
                Some(i) => i.cwd.clone(),
                None => None,
            },
            foreground_comm(info),
            get_leaf_pid(pid, info),
        ),
        None => (None, None, 0),
    };
    let osc_hostname = match &state.hostname {
        Some(h) => if str_eq(h.as_str(), local_hostname) {
            None
        } else {
            Some(h.as_str().to_owned())
        },
        None => None,
    };
    let osc133_status = match state.osc133_lookup(leaf) {
        Some(ok) => if ok {
            MarkerStatus::Confirmed
        } else {
            MarkerStatus::Failed
        },
        None => MarkerStatus::Unknown,
    };
    PaneEntry {
        pane_id: t.pane_id.as_str().to_owned(),
        pid: t.pid,
        width: t.processor.columns(),
        height: t.processor.screen_lines(),
        x: t.x,
        y: t.y,
        process_cwd,
        osc_cwd: state.cwd.clone(),
        osc_user: state.user.clone(),
        osc_hostname,
        foreground,
        activity: state.activity,
        marker_age: age_of(state.last_osc133_marker, now),
        data_age: age_of(state.last_data, now),
        osc133_status,
    }
}

/// Whether a text stands before another, character by character.
pub open spec fn text_before(a: Seq<char>, b: Seq<char>) -> bool
    decreases a.len(),
{
    if b.len() == 0 {
        false
    } else if a.len() == 0 {
        true
    } else if a[0] != b[0] {
        a[0] < b[0]
    } else {
        text_before(a.drop_first(), b.drop_first())
    }
}

/// Of two texts one stands before the other, or they are equal; and what stands
/// before is passed on.
pub proof fn text_order_is_total(a: Seq<char>, b: Seq<char>, c: Seq<char>)
    ensures
        !(text_before(a, b) && text_before(b, a)),
        text_before(a, b) || text_before(b, a) || a == b,
        text_before(a, b) && text_before(b, c) ==> text_before(a, c),
        !text_before(a, a),
    decreases a.len(),
{
    if a.len() > 0 && b.len() > 0 {
        if c.len() > 0 {
            text_order_is_total(a.drop_first(), b.drop_first(), c.drop_first());
        } else {
            text_order_is_total(a.drop_first(), b.drop_first(), c);
        }
        if a[0] == b[0] && a.drop_first() == b.drop_first() {
            assert(a =~= seq![a[0]] + a.drop_first());
            assert(b =~= seq![b[0]] + b.drop_first());
        }
    } else if a.len() == 0 && b.len() == 0 {
        assert(a =~= b);
    }
    if a.len() > 0 {
        text_order_is_total(a.drop_first(), a.drop_first(), a.drop_first());
    }
}

/// Whether a text stands before another.
pub fn is_before(a: &str, b: &str) -> (r: bool)
    ensures
        r == text_before(a@, b@),
{
    let x = chars_of(a);
    let y = chars_of(b);
    let mut i: usize = 0;
    assert(a@.subrange(0, a@.len() as int) =~= a@);
    assert(b@.subrange(0, b@.len() as int) =~= b@);
    while i < x.len() && i < y.len()
        invariant
            i <= x@.len(),
            i <= y@.len(),
            x@ == a@,
            y@ == b@,
            text_before(a@, b@) == text_before(
                a@.subrange(i as int, a@.len() as int),
                b@.subrange(i as int, b@.len() as int),
            ),
        decreases x@.len() - i,
    {
        assert(a@.subrange(i as int, a@.len() as int).drop_first() =~= a@.subrange(
            i + 1,
            a@.len() as int,
        ));
        assert(b@.subrange(i as int, b@.len() as int).drop_first() =~= b@.subrange(
            i + 1,
            b@.len() as int,
        ));
        if x[i] != y[i] {
            return x[i] < y[i];
        }
        i = i + 1;
    }
    i < y.len()
}

/// Whether entries are in the order of their identifiers.
pub open spec fn ordered(entries: Seq<EntryModel>) -> bool {
    forall|i: int, j: int|
        0 <= i < j < entries.len() ==> !text_before(
            (#[trigger] entries[j]).pane_id,
            (#[trigger] entries[i]).pane_id,
        )
}

/// Entries, mathematically.
pub open spec fn entry_views(v: Seq<PaneEntry>) -> Seq<EntryModel> {
    v.map_values(|e: PaneEntry| e@)
}

/// The entries of the panes of a window, in the order of the registry.
pub open spec fn window_entries(
    panes: Seq<TrackedPane>,
    infos: Seq<Option<ProcInfo>>,
    window: Seq<char>,
    host: Seq<char>,
    now: u64,
    n: int,
) -> Seq<EntryModel>
    decreases n,
{
    if n <= 0 {
        Seq::empty()
    } else {
        let before = window_entries(panes, infos, window, host, now, n - 1);
        if panes[n - 1].window_id@ == window {
            before.push(entry_of(panes[n - 1], infos[n - 1], host, now))
        } else {
            before
        }
    }
}

/// Put an entry in its place.
fn insert_entry(out: &mut Vec<PaneEntry>, entry: PaneEntry)
    requires
        ordered(entry_views(old(out)@)),
    ensures
        ordered(entry_views(final(out)@)),
        entry_views(final(out)@).to_multiset() == entry_views(old(out)@).to_multiset().insert(entry@),
{
    let ghost before = entry_views(out@);
    let n: usize = out.len();
    let mut i: usize = 0;
    while i < n && is_before(out[i].pane_id.as_str(), entry.pane_id.as_str())
        invariant
            i <= n == out@.len(),
            before == entry_views(out@),
            forall|k: int| 0 <= k < i ==> text_before((#[trigger] before[k]).pane_id, entry@.pane_id),
        decreases n - i,
    {
        assert(before[i as int] == out@[i as int]@);
        i = i + 1;
    }
    let ghost e = entry@;
    out.insert(i, entry);
    let ghost after = entry_views(out@);
    proof {
        assert(after =~= before.insert(i as int, e));
        after.to_multiset_ensures();
        assert(after[i as int] == e);
        assert(after.remove(i as int) =~= before);
        assert(after.contains(e));
        assert(after.to_multiset() =~= before.to_multiset().insert(e));
        if i < n {
            assert(before[i as int] == old(out)@[i as int]@);
            assert(!text_before(before[i as int].pane_id, e.pane_id));
        }
        assert forall|a: int, b: int| 0 <= a < b < after.len() implies !text_before(
            (#[trigger] after[b]).pane_id,
            (#[trigger] after[a]).pane_id,
        ) by {
            if a < i {
                assert(after[a] == before[a]);
                if b < i {
                    assert(after[b] == before[b]);
                } else if b == i {
                    text_order_is_total(before[a].pane_id, e.pane_id, e.pane_id);
                } else {
                    assert(after[b] == before[b - 1]);
                }
            } else if a == i {
                assert(after[b] == before[b - 1]);
                let p = before[b - 1].pane_id;
                let q = before[i as int].pane_id;
                if text_before(p, e.pane_id) {
                    text_order_is_total(q, p, e.pane_id);
                    text_order_is_total(p, q, e.pane_id);
                    if b - 1 > i {
                        assert(!text_before(p, q));
                    }
                }
            } else {
                assert(after[a] == before[a - 1]);
                assert(after[b] == before[b - 1]);
            }
        }
    }
}

/// The panes of the caller's window, in the order of their identifiers. `infos`
/// holds what is known of the process of each watched pane.
pub fn list_panes(
    registry: &PaneRegistry,
    origin_pane: Option<&str>,
    infos: &Vec<Option<ProcInfo>>,
    local_hostname: &str,
    now: u64,
) -> (r: Result<Vec<PaneEntry>, RpcError>)
    requires
        registry.valid(),
        infos@.len() == registry.panes().len(),
    ensures
        match origin_pane {
            None => r matches Err(e) && e.is(INVALID_PARAMS, "origin_pane is required"@),
            Some(origin) => match registry.at(origin@) {
                None => r matches Err(e) && e.is(
                    INVALID_PARAMS,
                    "Origin pane "@ + origin@ + " not tracked by daemon"@,
                ),
                Some(t) => r matches Ok(v) && ordered(entry_views(v@)) && entry_views(
                    v@,
                ).to_multiset() == window_entries(
                    registry.panes(),
                    infos@,
                    t.window_id@,
                    local_hostname@,
                    now,
                    infos@.len() as int,
                ).to_multiset(),
            },
        },
{
    let window = match resolve_caller_window(registry, origin_pane) {
        Ok(w) => w,
        Err(e) => {
            return Err(e);
        },
    };
    let panes = registry.iter();
    let n: usize = panes.len();
    let mut out: Vec<PaneEntry> = Vec::new();
    let mut i: usize = 0;
    let ghost all = registry.panes();
    assert(entry_views(out@) =~= Seq::<EntryModel>::empty());
    while i < n
        invariant
            i <= n == panes@.len() == infos@.len(),
            all == panes@,
            forall|k: int| 0 <= k < all.len() ==> (#[trigger] all[k]).processor.valid(),
            ordered(entry_views(out@)),
            entry_views(out@).to_multiset() == window_entries(
                all,
                infos@,
                window@,
                local_hostname@,
                now,
                i as int,
            ).to_multiset(),
        decreases n - i,
    {
        let t = &panes[i];
        assert(*t == all[i as int]);
        if str_eq(t.window_id.as_str(), window.as_str()) {
            let entry = pane_entry(t, &infos[i], local_hostname, now);
            let ghost front = window_entries(all, infos@, window@, local_hostname@, now, i as int);
            insert_entry(&mut out, entry);
            assert(front.push(entry@).to_multiset() =~= front.to_multiset().insert(entry@)) by {
                front.to_multiset_ensures();
            }
        }
        i = i + 1;
    }
    Ok(out)
}

/// Nanoseconds that a daemon stays without callers.
pub const IDLE_TIMEOUT_NANOS: u64 = 300_000_000_000;

/// Whether a daemon has been without callers for too long: the time since when it
/// has been idle, and whether it is to stop.
pub fn idle_step(clients: usize, idle_since: u64, now: u64) -> (r: (u64, bool))
    ensures
        r == (if clients > 0 {
            (now, false)
        } else {
            (idle_since, now - idle_since >= IDLE_TIMEOUT_NANOS)
        }),
{
    if clients > 0 {
        (now, false)
    } else {
        (idle_since, now >= idle_since && now - idle_since >= IDLE_TIMEOUT_NANOS)
    }
}

/// The list of a window holds each of its panes, as it is, and none of another
/// window.
pub proof fn window_panes_are_listed(
    panes: Seq<TrackedPane>,
    infos: Seq<Option<ProcInfo>>,
    window: Seq<char>,
    host: Seq<char>,
    now: u64,
    n: int,
)
    requires
        0 <= n <= panes.len(),
        panes.len() == infos.len(),
    ensures
        ({
            let listed = window_entries(panes, infos, window, host, now, n);
            &&& forall|i: int|
                0 <= i < n && (#[trigger] panes[i]).window_id@ == window ==> listed.contains(
                    entry_of(panes[i], infos[i], host, now),
                )
            &&& forall|k: int|
                0 <= k < listed.len() ==> exists|i: int|
                    0 <= i < n && panes[i].window_id@ == window && #[trigger] listed[k] == entry_of(
                        #[trigger] panes[i],
                        infos[i],
                        host,
                        now,
                    )
            &&& listed.len() == panes.subrange(0, n).filter(
                |t: TrackedPane| t.window_id@ == window,
            ).len()
        }),
    decreases n,
{
    reveal(Seq::filter);
    let test = |t: TrackedPane| t.window_id@ == window;
    if n > 0 {
        window_panes_are_listed(panes, infos, window, host, now, n - 1);
        let before = window_entries(panes, infos, window, host, now, n - 1);
        let listed = window_entries(panes, infos, window, host, now, n);
        let upto = panes.subrange(0, n);
        assert(upto.drop_last() =~= panes.subrange(0, n - 1));
        assert(upto.last() == panes[n - 1]);
        assert forall|i: int| 0 <= i < n && (#[trigger] panes[i]).window_id@ == window implies listed.contains(
            entry_of(panes[i], infos[i], host, now),
        ) by {
            if i < n - 1 {
                let e = entry_of(panes[i], infos[i], host, now);
                let k = choose|k: int| 0 <= k < before.len() && before[k] == e;
                assert(listed[k] == e);
            } else {
                assert(listed[before.len() as int] == entry_of(panes[i], infos[i], host, now));
            }
        }
        assert forall|k: int| 0 <= k < listed.len() implies exists|i: int|
            0 <= i < n && panes[i].window_id@ == window && #[trigger] listed[k] == entry_of(
                #[trigger] panes[i],
                infos[i],
                host,
                now,
            ) by {
            if k < before.len() {
                assert(listed[k] == before[k]);
                let i = choose|i: int|
                    0 <= i < n - 1 && panes[i].window_id@ == window && before[k] == entry_of(
                        #[trigger] panes[i],
                        infos[i],
                        host,
                        now,
                    );
                assert(listed[k] == entry_of(panes[i], infos[i], host, now));
            } else {
                assert(listed[k] == entry_of(panes[n - 1], infos[n - 1], host, now));
            }
        }
    } else {
        assert(panes.subrange(0, 0).filter(test) =~= Seq::<TrackedPane>::empty());
    }
}

/// An entry tells of a pane its place and size, its process, what the shell has
/// told of directory, user and host, and how long ago it was heard of. The local
/// host is not told.
pub proof fn entry_is_of_the_pane(t: TrackedPane, info: Option<ProcInfo>, host: Seq<char>, now: u64)
    ensures
        ({
            let e = entry_of(t, info, host, now);
            let s = t.processor.state@;
            &&& e.pane_id == t.pane_id@ && e.pid == t.pid
            &&& e.width == t.processor.width() && e.height == t.processor.lines()
            &&& e.x == t.x && e.y == t.y
            &&& e.osc_cwd == s.cwd && e.osc_user == s.user && e.activity == s.activity
            &&& s.hostname == Some(host) || s.hostname is None ==> e.osc_hostname is None
            &&& s.hostname is Some && s.hostname != Some(host) ==> e.osc_hostname == s.hostname
            &&& t.pid is Some ==> e.foreground == foreground_name(info)
            &&& t.pid is None ==> e.foreground is None && e.process_cwd is None
            &&& t.pid is Some && info is Some ==> e.process_cwd == opt_text((info->0).cwd)
            &&& (s.last_data matches Some(at) && at <= now) ==> e.data_age == Some(
                (now - s.last_data->0) as u64,
            )
            &&& (s.last_osc133_marker matches Some(at) && at <= now) ==> e.marker_age == Some(
                (now - s.last_osc133_marker->0) as u64,
            )
            &&& t.pid is Some ==> (e.osc133_status == MarkerStatus::Confirmed <==> cached(
                s.osc133_cache,
                leaf_of(t.pid->0, info),
            ) == Some(true)) && (e.osc133_status == MarkerStatus::Failed <==> cached(
                s.osc133_cache,
                leaf_of(t.pid->0, info),
            ) == Some(false))
        }),
{
}

/// An age is the time that has passed since, and none where nothing has happened.
pub proof fn age_is_the_time_since(since: u64, passed: u64)
    requires
        since + passed <= u64::MAX,
    ensures
        age(Some(since), (since + passed) as u64) == Some(passed),
        age(None, passed) is None,
{
}

} // verus!
