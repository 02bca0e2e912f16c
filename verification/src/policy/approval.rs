//! Approval store: connects an approval that a person gave to the command that
//! then runs.
//!
//! An approval is bound to the command text and the pane context. It serves
//! once, for the same origin and pane, and expires.

use super::{PaneContext, PaneModel};
use crate::text::str_eq;
use vstd::prelude::*;

verus! {

/// How long an approval holds, in nanoseconds.
pub const APPROVAL_TTL_NANOS: u64 = 30_000_000_000;

/// An approval that was given and not yet used.
#[derive(Debug)]
struct PendingApproval {
    origin: String,
    pane_id: String,
    command: String,
    ctx: PaneContext,
    created_at: u64,
}

/// An approval, mathematically.
pub ghost struct ApprovalModel {
    pub command: Seq<char>,
    pub ctx: PaneModel,
    /// When it was given, in nanoseconds on the caller's clock.
    pub created_at: int,
}

/// Whether an approval no longer holds at `now`.
pub open spec fn expired(a: ApprovalModel, now: int) -> bool {
    now - a.created_at >= APPROVAL_TTL_NANOS
}

/// The approvals that still hold at `now`.
pub open spec fn unexpired(
    m: Map<(Seq<char>, Seq<char>), ApprovalModel>,
    now: int,
) -> Map<(Seq<char>, Seq<char>), ApprovalModel> {
    Map::new(
        |k: (Seq<char>, Seq<char>)| m.dom().contains(k) && !expired(m[k], now),
        |k: (Seq<char>, Seq<char>)| m[k],
    )
}

impl PendingApproval {
    spec fn key(self) -> (Seq<char>, Seq<char>) {
        (self.origin@, self.pane_id@)
    }

    spec fn model(self) -> ApprovalModel {
        ApprovalModel {
            command: self.command@,
            ctx: self.ctx@,
            created_at: self.created_at as int,
        }
    }
}

/// The last approval with that key.
spec fn find_pending(s: Seq<PendingApproval>, k: (Seq<char>, Seq<char>)) -> Option<ApprovalModel>
    decreases s.len(),
{
    if s.len() == 0 {
        None
    } else if s.last().key() == k {
        Some(s.last().model())
    } else {
        find_pending(s.drop_last(), k)
    }
}

/// Pending approvals, one for each origin and pane.
#[derive(Debug)]
pub struct ApprovalStore {
    pending: Vec<PendingApproval>,
}

impl View for ApprovalStore {
    type V = Map<(Seq<char>, Seq<char>), ApprovalModel>;

    closed spec fn view(&self) -> Map<(Seq<char>, Seq<char>), ApprovalModel> {
        Map::new(
            |k: (Seq<char>, Seq<char>)| find_pending(self.pending@, k) is Some,
            |k: (Seq<char>, Seq<char>)| find_pending(self.pending@, k)->0,
        )
    }
}

/// Whether no two approvals have the same key.
spec fn distinct_keys(s: Seq<PendingApproval>) -> bool {
    forall|i: int, j: int| 0 <= i < j < s.len() ==> (#[trigger] s[i]).key() != (#[trigger] s[j]).key()
}

/// Looking up a key after one more approval.
proof fn find_after_push(s: Seq<PendingApproval>, a: PendingApproval)
    ensures
        forall|k: (Seq<char>, Seq<char>)| #[trigger]
            find_pending(s.push(a), k) == if a.key() == k {
                Some(a.model())
            } else {
                find_pending(s, k)
            },
{
    assert(s.push(a).drop_last() =~= s);
}

/// An approval that is there is found, with distinct keys.
proof fn pending_is_found(s: Seq<PendingApproval>, i: int)
    requires
        distinct_keys(s),
        0 <= i < s.len(),
    ensures
        find_pending(s, s[i].key()) == Some(s[i].model()),
    decreases s.len(),
{
    if i < s.len() - 1 {
        assert(s[i].key() != s[s.len() - 1].key());
        assert forall|a: int, b: int| 0 <= a < b < s.drop_last().len() implies (
        #[trigger] s.drop_last()[a]).key() != (#[trigger] s.drop_last()[b]).key() by {
            assert(s[a].key() != s[b].key());
        }
        pending_is_found(s.drop_last(), i);
    }
}

/// A key that no approval has is not found.
proof fn pending_is_absent(s: Seq<PendingApproval>, k: (Seq<char>, Seq<char>))
    requires
        forall|i: int| 0 <= i < s.len() ==> (#[trigger] s[i]).key() != k,
    ensures
        find_pending(s, k) is None,
    decreases s.len(),
{
    if s.len() > 0 {
        assert(s[s.len() - 1].key() != k);
        assert forall|i: int| 0 <= i < s.drop_last().len() implies (
        #[trigger] s.drop_last()[i]).key() != k by {
            assert(s[i].key() != k);
        }
        pending_is_absent(s.drop_last(), k);
    }
}

/// A key is found only where an approval has it.
proof fn found_is_pending(s: Seq<PendingApproval>, k: (Seq<char>, Seq<char>))
    requires
        find_pending(s, k) is Some,
    ensures
        exists|i: int| 0 <= i < s.len() && (#[trigger] s[i]).key() == k,
    decreases s.len(),
{
    if s.last().key() == k {
        assert(s[s.len() - 1].key() == k);
    } else {
        found_is_pending(s.drop_last(), k);
        let i = choose|i: int| 0 <= i < s.drop_last().len() && (#[trigger] s.drop_last()[i]).key() == k;
        assert(s[i].key() == k);
    }
}

/// A copy of an approval.
fn copy_pending(a: &PendingApproval) -> (r: PendingApproval)
    ensures
        r.key() == a.key(),
        r.model() == a.model(),
{
    PendingApproval {
        origin: a.origin.clone(),
        pane_id: a.pane_id.clone(),
        command: a.command.clone(),
        ctx: a.ctx.clone(),
        created_at: a.created_at,
    }
}

/// The approvals with another key than the given one that hold at `now`. Where
/// `now` is `None`, time does not matter.
fn others(
    pending: &Vec<PendingApproval>,
    origin: &str,
    pane_id: &str,
    now: Option<u64>,
) -> (r: Vec<PendingApproval>)
    requires
        distinct_keys(pending@),
    ensures
        distinct_keys(r@),
        forall|i: int| 0 <= i < r@.len() ==> (#[trigger] r@[i]).key() != (origin@, pane_id@),
        forall|k: (Seq<char>, Seq<char>)| #[trigger]
            find_pending(r@, k) == (match find_pending(pending@, k) {
                Some(a) => if k == (origin@, pane_id@) || (now is Some && expired(
                    a,
                    now->0 as int,
                )) {
                    None
                } else {
                    Some(a)
                },
                None => None,
            }),
{
    let mut out: Vec<PendingApproval> = Vec::new();
    let mut i: usize = 0;
    let ghost all = pending@;
    assert(all.subrange(0, 0) =~= Seq::<PendingApproval>::empty());
    while i < pending.len()
        invariant
            i <= pending@.len(),
            all == pending@,
            distinct_keys(all),
            distinct_keys(out@),
            forall|j: int| 0 <= j < out@.len() ==> (#[trigger] out@[j]).key() != (origin@, pane_id@),
            forall|j: int|
                0 <= j < out@.len() ==> exists|m: int|
                    0 <= m < i && (#[trigger] out@[j]).key() == (#[trigger] all[m]).key(),
            forall|k: (Seq<char>, Seq<char>)| #[trigger]
                find_pending(out@, k) == (match find_pending(all.subrange(0, i as int), k) {
                    Some(a) => if k == (origin@, pane_id@) || (now is Some && expired(
                        a,
                        now->0 as int,
                    )) {
                        None
                    } else {
                        Some(a)
                    },
                    None => None,
                }),
        decreases pending@.len() - i,
    {
        let a = &pending[i];
        let ghost before = out@;
        let ghost upto = all.subrange(0, i + 1);
        assert(upto =~= all.subrange(0, i as int).push(all[i as int]));
        proof {
            find_after_push(all.subrange(0, i as int), all[i as int]);
        }
        let same = str_eq(a.origin.as_str(), origin) && str_eq(a.pane_id.as_str(), pane_id);
        let old = match now {
            Some(n) => n >= a.created_at && n - a.created_at >= APPROVAL_TTL_NANOS,
            None => false,
        };
        assert forall|j: int| 0 <= j < out@.len() implies (#[trigger] out@[j]).key()
            != all[i as int].key() by {
            let m = choose|m: int|
                0 <= m < i && out@[j].key() == (#[trigger] all[m]).key();
            assert(all[m].key() != all[i as int].key());
        }
        if !same && !old {
            let copy = copy_pending(a);
            proof {
                find_after_push(before, copy);
            }
            out.push(copy);
            assert forall|j: int| 0 <= j < out@.len() implies exists|m: int|
                0 <= m < i + 1 && (#[trigger] out@[j]).key() == (#[trigger] all[m]).key() by {
                if j < before.len() {
                    let m = choose|m: int|
                        0 <= m < i && before[j].key() == (#[trigger] all[m]).key();
                    assert(out@[j].key() == all[m].key());
                } else {
                    assert(out@[j].key() == all[i as int].key());
                }
            }
        } else {
            proof {
                pending_is_absent(before, all[i as int].key());
            }
        }
        i = i + 1;
    }
    assert(all.subrange(0, i as int) =~= all);
    out
}

impl ApprovalStore {
    #[verifier::type_invariant]
    spec fn one_per_key(self) -> bool {
        distinct_keys(self.pending@)
    }

    /// No approvals.
    pub fn new() -> (r: Self)
        ensures
            r@ == Map::<(Seq<char>, Seq<char>), ApprovalModel>::empty(),
    {
        let r = Self { pending: Vec::new() };
        assert(r@ =~= Map::<(Seq<char>, Seq<char>), ApprovalModel>::empty());
        r
    }

    /// Store an approval given at `now`, in place of any for the same origin and
    /// pane. Approvals that no longer hold are dropped.
    pub fn store(&mut self, origin: &str, pane_id: &str, command: &str, ctx: &PaneContext, now: u64)
        ensures
            final(self)@ == unexpired(old(self)@, now as int).insert(
                (origin@, pane_id@),
                ApprovalModel { command: command@, ctx: ctx@, created_at: now as int },
            ),
    {
        proof {
            use_type_invariant(&*self);
        }
        let mut kept = others(&self.pending, origin, pane_id, Some(now));
        let ghost before = kept@;
        let approval = PendingApproval {
            origin: origin.to_owned(),
            pane_id: pane_id.to_owned(),
            command: command.to_owned(),
            ctx: ctx.clone(),
            created_at: now,
        };
        proof {
            find_after_push(before, approval);
        }
        kept.push(approval);
        assert(distinct_keys(kept@));
        self.pending = kept;
        assert(self@ =~= unexpired(old(self)@, now as int).insert(
            (origin@, pane_id@),
            ApprovalModel { command: command@, ctx: ctx@, created_at: now as int },
        ));
    }

    /// Verify at `now` that a pending approval matches the request, and use it
    /// up.
    ///
    /// It must exist, still hold, and be for the same command in the same pane
    /// context. On success it is removed. So it is where it no longer holds and
    /// where the pane context has changed: it must then be asked for again. A
    /// request for another command leaves it as it is.
    pub fn verify_and_consume(
        &mut self,
        origin: &str,
        pane_id: &str,
        command: &str,
        live_ctx: &PaneContext,
        now: u64,
    ) -> (r: Result<(), String>)
        ensures
            verification(
                old(self)@,
                (origin@, pane_id@),
                command@,
                live_ctx@,
                now as int,
            ) == (
                (match r {
                    Ok(_) => None,
                    Err(e) => Some(e@),
                }),
                final(self)@,
            ),
    {
        proof {
            use_type_invariant(&*self);
        }
        let ghost before = self@;
        let ghost k = (origin@, pane_id@);
        let mut i: usize = 0;
        while i < self.pending.len()
            invariant
                i <= self.pending@.len(),
                distinct_keys(self.pending@),
                *self == *old(self),
                before == self@,
                k == (origin@, pane_id@),
                forall|j: int| 0 <= j < i ==> (#[trigger] self.pending@[j]).key() != k,
            decreases self.pending@.len() - i,
        {
            let a = &self.pending[i];
            if str_eq(a.origin.as_str(), origin) && str_eq(a.pane_id.as_str(), pane_id) {
                proof {
                    pending_is_found(self.pending@, i as int);
                    assert(before.dom().contains(k));
                    assert(before[k] == self.pending@[i as int].model());
                }
                let gone = now >= a.created_at && now - a.created_at >= APPROVAL_TTL_NANOS;
                if !gone && !str_eq(a.command.as_str(), command) {
                    return Err("Command changed since approval".to_owned());
                }
                let changed = !a.ctx.same_as(live_ctx);
                let kept = others(&self.pending, origin, pane_id, None);
                self.pending = kept;
                assert(self@ =~= before.remove(k));
                if gone {
                    return Err("Approval expired".to_owned());
                }
                if changed {
                    return Err("Pane context changed since approval".to_owned());
                }
                return Ok(());
            }
            i = i + 1;
        }
        proof {
            pending_is_absent(self.pending@, k);
        }
        Err("No pending approval".to_owned())
    }
}

impl Default for ApprovalStore {
    fn default() -> (r: Self)
        ensures
            r@ == Map::<(Seq<char>, Seq<char>), ApprovalModel>::empty(),
    {
        Self::new()
    }
}

/// What verifying a request does: the error, if any, and the approvals left.
pub open spec fn verification(
    m: Map<(Seq<char>, Seq<char>), ApprovalModel>,
    k: (Seq<char>, Seq<char>),
    command: Seq<char>,
    ctx: PaneModel,
    now: int,
) -> (Option<Seq<char>>, Map<(Seq<char>, Seq<char>), ApprovalModel>) {
    if !m.dom().contains(k) {
        (Some("No pending approval"@), m)
    } else if expired(m[k], now) {
        (Some("Approval expired"@), m.remove(k))
    } else if m[k].command != command {
        (Some("Command changed since approval"@), m)
    } else if m[k].ctx != ctx {
        (Some("Pane context changed since approval"@), m.remove(k))
    } else {
        (None, m.remove(k))
    }
}

/// An approval serves exactly once: a matching request in time succeeds, and
/// the same request then finds none.
pub proof fn approval_serves_once(
    m: Map<(Seq<char>, Seq<char>), ApprovalModel>,
    k: (Seq<char>, Seq<char>),
    command: Seq<char>,
    ctx: PaneModel,
    given: int,
    now: int,
    later: int,
)
    requires
        now - given < APPROVAL_TTL_NANOS,
    ensures
        ({
            let stored = unexpired(m, given).insert(
                k,
                ApprovalModel { command, ctx, created_at: given },
            );
            let first = verification(stored, k, command, ctx, now);
            first.0 is None && verification(first.1, k, command, ctx, later).0 == Some(
                "No pending approval"@,
            )
        }),
{
}

/// A change of the pane context takes the approval away: once a request has
/// been refused for it, a later one from the approved context is refused too.
pub proof fn context_change_invalidates(
    m: Map<(Seq<char>, Seq<char>), ApprovalModel>,
    k: (Seq<char>, Seq<char>),
    command: Seq<char>,
    ctx: PaneModel,
    now: int,
    later: int,
)
    requires
        m.dom().contains(k),
        m[k].command == command,
        m[k].ctx != ctx,
    ensures
        ({
            let first = verification(m, k, command, ctx, now);
            first.0 is Some && verification(first.1, k, command, m[k].ctx, later) == (
                Some("No pending approval"@),
                m.remove(k),
            )
        }),
{
}

/// A change of the command or of any part of the pane context, the passing of
/// time, or another origin or pane leaves a request refused.
pub proof fn drift_is_refused(
    m: Map<(Seq<char>, Seq<char>), ApprovalModel>,
    k: (Seq<char>, Seq<char>),
    command: Seq<char>,
    ctx: PaneModel,
    now: int,
)
    ensures
        verification(m, k, command, ctx, now).0 is None <==> m.dom().contains(k) && now
            - m[k].created_at < APPROVAL_TTL_NANOS && m[k].command == command && m[k].ctx == ctx,
{
}

/// An approval holds for 30 seconds: the store drops older ones, and no others,
/// and a request by an older one is refused.
pub proof fn approvals_hold_for_30_seconds(
    m: Map<(Seq<char>, Seq<char>), ApprovalModel>,
    k: (Seq<char>, Seq<char>),
    now: int,
)
    requires
        m.dom().contains(k),
    ensures
        unexpired(m, now).dom().contains(k) <==> now - m[k].created_at < 30_000_000_000,
        unexpired(m, now).dom().contains(k) ==> unexpired(m, now)[k] == m[k],
        now - m[k].created_at >= 30_000_000_000 ==> verification(
            m,
            k,
            m[k].command,
            m[k].ctx,
            now,
        ).0 is Some,
        now - m[k].created_at < 30_000_000_000 ==> verification(
            m,
            k,
            m[k].command,
            m[k].ctx,
            now,
        ).0 is None,
{
}

/// A request touches no approval but its own.
pub proof fn other_approvals_are_untouched(
    m: Map<(Seq<char>, Seq<char>), ApprovalModel>,
    k: (Seq<char>, Seq<char>),
    other: (Seq<char>, Seq<char>),
    command: Seq<char>,
    ctx: PaneModel,
    now: int,
)
    requires
        other != k,
    ensures
        ({
            let left = verification(m, k, command, ctx, now).1;
            left.dom().contains(other) == m.dom().contains(other) && (m.dom().contains(other)
                ==> left[other] == m[other])
        }),
{
}

} // verus!
