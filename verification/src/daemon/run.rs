//! Running a command in a pane, from the request to the answer: the checks in
//! their order, and the wait for the command.

use crate::daemon::command::{has_new, nothing_yet, reply_of, run_poll, state_read, CommandReply, RunStep};
use crate::daemon::gate::{
    busy_text, check_idle, check_policy, check_run_request, denied_text, is_busy, is_typing,
    marker_gate, markers_missing, opt_str, pane_context, probed, refuse_without_markers,
    request_error, running_text, same_but_state, screen_note, typing_text, unapproved_text,
    MarkerGate,
};
use crate::daemon::read::{enough, ReadParams};
use crate::daemon::rpc::{reach, refusal, RpcError, INTERNAL, INVALID_PARAMS, POLICY};
use crate::pane::processor::PaneProcessor;
use crate::pane::registry::{PaneRegistry, TrackedPane};
use crate::pane::state::{cached, StateModel};
use crate::policy::approval::{verification, ApprovalModel, ApprovalStore};
use crate::policy::parse::EffectiveModel;
use crate::policy::{policy_of, CompiledPolicy, Decision, PaneModel};
use crate::proc::{foreground_name, get_leaf_pid, leaf_of, ProcInfo};
use crate::text::lines_of;
use vstd::prelude::*;

verus! {

/// Why the policy does not let a command run; none where it does. And the
/// approvals that are left.
pub open spec fn policy_error(
    approvals: Map<(Seq<char>, Seq<char>), ApprovalModel>,
    command: Seq<char>,
    origin: Seq<char>,
    pane_id: Seq<char>,
    ctx: PaneModel,
    policy: CompiledPolicy,
    now: int,
) -> (Option<Seq<char>>, Map<(Seq<char>, Seq<char>), ApprovalModel>) {
    let (decision, rule) = policy_of(command, ctx, policy);
    match decision {
        Decision::Allow => (None, approvals),
        Decision::Deny => (Some(denied_text(rule)), approvals),
        Decision::Ask => {
            let (why, left) = verification(approvals, (origin, pane_id), command, ctx, now);
            (
                match why {
                    Some(message) => Some(unapproved_text(message, rule)),
                    None => None,
                },
                left,
            )
        },
    }
}

/// The context of a pane that the policy looks at.
pub open spec fn context_of(t: TrackedPane, info: Option<ProcInfo>) -> PaneModel {
    PaneModel {
        hostname: t.processor.state@.hostname,
        cwd: t.processor.state@.cwd,
        foreground: foreground_name(info),
        user: t.processor.state@.user,
        moved: EffectiveModel::Unchanged,
    }
}

/// Why no command can be sent to a pane at this time; none where one can.
pub open spec fn pane_error(
    p: PaneProcessor,
    pane_id: Seq<char>,
    leaf_pid: u32,
    marker_age: Seq<char>,
) -> Option<Seq<char>> {
    if is_busy(p) {
        Some(busy_text(pane_id, running_text(p)) + screen_note(p.rows()))
    } else if is_typing(p) {
        Some(typing_text(pane_id) + screen_note(p.rows()))
    } else if cached(p.state@.osc133_cache, leaf_pid) == Some(false) {
        Some(
            "OSC 133 not active for this pane. Use inject_osc133 to enable shell integration.\n\nosc133_last_marker_secs: "@
                + marker_age + screen_note(p.rows()),
        )
    } else {
        None
    }
}

/// Check a request to run a command, in this order: the request itself and the
/// lints, the caller's window, the pane's process, the policy with its
/// approvals, what goes on in the pane, and its shell integration. `info` tells
/// of the pane's process, `marker_age` is the time since the last marker, written
/// out. Where all goes well, it is known whether shell integration works or has
/// to be probed.
pub fn begin_run(
    registry: &PaneRegistry,
    pane_id: Option<&str>,
    command: Option<&str>,
    origin_pane: Option<&str>,
    info: &Option<ProcInfo>,
    marker_age: &str,
    policy: &CompiledPolicy,
    approvals: &mut ApprovalStore,
    now: u64,
) -> (r: Result<(u32, bool), RpcError>)
    requires
        registry.valid(),
    ensures
        match request_error(opt_str(pane_id), opt_str(command), opt_str(origin_pane)) {
            Some(message) => r matches Err(e) && e.is(INVALID_PARAMS, message)
                && final(approvals)@ == old(approvals)@,
            None => {
                let pane = pane_id->0@;
                let line = command->0@;
                let origin = origin_pane->0@;
                match refusal(*registry, Some(origin), pane) {
                    Some(message) => r matches Err(e) && e.is(INVALID_PARAMS, message)
                        && final(approvals)@ == old(approvals)@,
                    None => {
                        let t = registry.at(pane)->0;
                        let (refused, left) = policy_error(
                            old(approvals)@,
                            line,
                            origin,
                            pane,
                            context_of(t, *info),
                            *policy,
                            now as int,
                        );
                        match t.pid {
                            None => r matches Err(e) && e.is(INTERNAL, "Pane has no known PID"@)
                                && final(approvals)@ == old(approvals)@,
                            Some(pid) => final(approvals)@ == left && match refused {
                                Some(message) => r matches Err(e) && e.is(POLICY, message),
                                None => match pane_error(
                                    t.processor,
                                    pane,
                                    leaf_of(pid, *info),
                                    marker_age@,
                                ) {
                                    Some(message) => r matches Err(e) && e.is(INTERNAL, message),
                                    None => r matches Ok((leaf, known)) && leaf == leaf_of(
                                        pid,
                                        *info,
                                    ) && known == (cached(t.processor.state@.osc133_cache, leaf)
                                        is Some),
                                },
                            },
                        }
                    },
                }
            },
        },
{
    if let Err(e) = check_run_request(pane_id, command, origin_pane) {
        return Err(e);
    }
    let (pane, line, origin) = match (pane_id, command, origin_pane) {
        (Some(p), Some(c), Some(o)) => (p, c, o),
        _ => ("", "", ""),
    };
    let t = match reach(registry, Some(origin), pane) {
        Ok(t) => t,
        Err(e) => {
            return Err(e);
        },
    };
    let shell_pid: u32 = match t.pid {
        Some(pid) => pid,
        None => {
            return Err(RpcError::internal("Pane has no known PID".to_owned()));
        },
    };
    let ctx = pane_context(t.processor.state(), info);
    if let Err(e) = check_policy(line, origin, pane, &ctx, &ctx, policy, approvals, now) {
        return Err(e);
    }
    let leaf: u32 = get_leaf_pid(shell_pid, info);
    if let Err(e) = check_idle(&t.processor, pane) {
        return Err(e);
    }
    match marker_gate(&t.processor, leaf) {
        MarkerGate::Refuse => Err(refuse_without_markers(&t.processor, marker_age)),
        MarkerGate::Proceed => Ok((leaf, true)),
        MarkerGate::Probe => Ok((leaf, false)),
    }
}

/// Nanoseconds in which the record of a command that was sent has to come.
pub const MARKER_NANOS: u64 = 500_000_000;

/// Nanoseconds of a second.
pub const SECOND_NANOS: u64 = 1_000_000_000;

/// A command that was sent to a pane.
#[derive(Debug, Clone, PartialEq, Eq)]
pub struct SentCommand {
    /// The process in the foreground.
    pub leaf_pid: u32,
    /// What is to be answered.
    pub params: ReadParams,
    /// The newest command before it.
    pub id_before: u64,
    /// Whether its record has come.
    pub seen: bool,
    /// When its record has to have come.
    pub marker_deadline: u64,
    /// When it is answered, whether or not it has ended.
    pub completion_deadline: u64,
}

/// A time after another, no later than can be told.
pub open spec fn later(now: u64, nanos: int) -> int {
    if now + nanos > u64::MAX {
        u64::MAX as int
    } else {
        now + nanos
    }
}

/// The time from `before` to `now`; none where `now` is the earlier.
pub open spec fn span(before: u64, now: u64) -> int {
    if now >= before {
        now - before
    } else {
        0
    }
}

/// The identifier of the newest command, 0 where there is none.
pub open spec fn newest(s: StateModel) -> int {
    if s.commands.len() > 0 {
        s.commands[0].id
    } else {
        0
    }
}

/// What to wait for once a command was sent.
pub fn sent_command(
    p: &PaneProcessor,
    leaf_pid: u32,
    params: ReadParams,
    timeout_secs: u64,
    now: u64,
) -> (r: SentCommand)
    ensures
        r.leaf_pid == leaf_pid,
        r.params == params,
        r.id_before == newest(p.state@),
        !r.seen,
        r.marker_deadline == later(now, MARKER_NANOS as int),
        r.completion_deadline == later(now, timeout_secs * SECOND_NANOS),
{
    let id_before: u64 = match crate::daemon::command::newest_id(&p.state) {
        Some(id) => id,
        None => 0,
    };
    let completion_deadline: u64 = match timeout_secs.checked_mul(SECOND_NANOS) {
        Some(span) => now.saturating_add(span),
        None => u64::MAX,
    };
    SentCommand {
        leaf_pid,
        params,
        id_before,
        seen: false,
        marker_deadline: now.saturating_add(MARKER_NANOS),
        completion_deadline,
    }
}

/// What to do about a command that was sent.
#[derive(Debug, Clone, PartialEq, Eq)]
pub enum RunAction {
    /// Look again later.
    Wait,
    /// Answer.
    Answer(CommandReply),
    /// Answer with an error.
    Fail(RpcError),
}

impl SentCommand {
    /// The command, made ready at `before`, went out at `now`: its deadlines
    /// count from then.
    pub fn sent_at(&mut self, before: u64, now: u64)
        ensures
            final(self).marker_deadline == later(old(self).marker_deadline, span(before, now)),
            final(self).completion_deadline == later(
                old(self).completion_deadline,
                span(before, now),
            ),
            final(self).leaf_pid == old(self).leaf_pid,
            final(self).params == old(self).params,
            final(self).id_before == old(self).id_before,
            final(self).seen == old(self).seen,
    {
        let sending: u64 = now.saturating_sub(before);
        self.marker_deadline = self.marker_deadline.saturating_add(sending);
        self.completion_deadline = self.completion_deadline.saturating_add(sending);
    }

    /// Look what has become of the command.
    pub fn poll(&mut self, p: &mut PaneProcessor, now: u64) -> (r: RunAction)
        ensures
            now >= old(self).completion_deadline ==> !(r is Wait),
            same_but_state(*final(p), *old(p)),
            final(self).leaf_pid == old(self).leaf_pid,
            final(self).params == old(self).params,
            final(self).id_before == old(self).id_before,
            final(self).marker_deadline == old(self).marker_deadline,
            final(self).completion_deadline == old(self).completion_deadline,
            ({
                let s = old(p).state@;
                let new = has_new(s, old(self).id_before as int);
                let record = s.commands[0];
                let ask = old(self).params@;
                let due = now >= old(self).completion_deadline;
                &&& final(self).seen == (old(self).seen || new)
                &&& if new && record.completed {
                    r matches RunAction::Answer(reply) && reply@ == reply_of(record, ask, true, true)
                        && final(p).state@ == state_read(s, 0, ask)
                } else if new && (due || enough(lines_of(record.output), ask, record.read_cursor)) {
                    r matches RunAction::Answer(reply) && reply@ == reply_of(record, ask, false, false)
                        && final(p).state@ == state_read(s, 0, ask)
                } else if !final(self).seen && now >= old(self).marker_deadline {
                    r matches RunAction::Fail(e) && e.is(
                        INTERNAL,
                        "Command was sent but no OSC 133 markers detected. Shell integration may have stopped working. Use debug_pane to inspect pane state."@
                            + screen_note(old(p).rows()),
                    ) && final(p).state@ == probed(*old(p), old(self).leaf_pid, false)
                } else if due {
                    r matches RunAction::Answer(reply) && reply@ == nothing_yet() && final(p).state@
                        == s
                } else {
                    r is Wait && final(p).state@ == s
                }
            }),
    {
        let mut seen: bool = self.seen;
        let step = run_poll(
            &mut p.state,
            self.id_before,
            &mut seen,
            now >= self.marker_deadline,
            now >= self.completion_deadline,
            &self.params,
        );
        self.seen = seen;
        match step {
            RunStep::Wait => RunAction::Wait,
            RunStep::Reply(reply) => RunAction::Answer(reply),
            RunStep::NoMarkers => RunAction::Fail(markers_missing(p, self.leaf_pid)),
        }
    }
}

/// Check a request to read a command's output: the pane is given, what is asked
/// for makes sense, and the caller may reach the pane.
pub fn begin_read(
    registry: &PaneRegistry,
    pane_id: Option<&str>,
    origin_pane: Option<&str>,
    params: Result<ReadParams, RpcError>,
) -> (r: Result<ReadParams, RpcError>)
    requires
        registry.valid(),
    ensures
        match pane_id {
            None => r matches Err(e) && e.is(INVALID_PARAMS, "pane_id is required"@),
            Some(pane) => match params {
                Err(why) => r == Err::<ReadParams, RpcError>(why),
                Ok(ask) => match refusal(*registry, opt_str(origin_pane), pane@) {
                    Some(message) => r matches Err(e) && e.is(INVALID_PARAMS, message),
                    None => r == Ok::<ReadParams, RpcError>(ask),
                },
            },
        },
{
    match pane_id {
        None => Err(RpcError::invalid_params("pane_id is required".to_owned())),
        Some(pane) => match params {
            Err(why) => Err(why),
            Ok(ask) => match reach(registry, origin_pane, pane) {
                Ok(_) => Ok(ask),
                Err(e) => Err(e),
            },
        },
    }
}

/// The policy lets a command run exactly if it allows it, or if it asks and an
/// approval for the very same command in the very same context was given less
/// than 30 seconds ago. A denied command never runs, and only what is asked about
/// touches an approval.
pub proof fn policy_lets_run_what_is_allowed(
    approvals: Map<(Seq<char>, Seq<char>), ApprovalModel>,
    command: Seq<char>,
    origin: Seq<char>,
    pane_id: Seq<char>,
    ctx: PaneModel,
    policy: CompiledPolicy,
    now: int,
)
    ensures
        ({
            let decision = policy_of(command, ctx, policy).0;
            let (refused, left) = policy_error(
                approvals,
                command,
                origin,
                pane_id,
                ctx,
                policy,
                now,
            );
            let k = (origin, pane_id);
            &&& refused is None <==> decision == Decision::Allow || (decision == Decision::Ask
                && approvals.dom().contains(k) && now - approvals[k].created_at < 30_000_000_000
                && approvals[k].command == command && approvals[k].ctx == ctx)
            &&& decision != Decision::Ask ==> left == approvals
            &&& decision == Decision::Ask && refused is None ==> left == approvals.remove(k)
            &&& forall|other: (Seq<char>, Seq<char>)|
                other != k ==> #[trigger] left.dom().contains(other) == approvals.dom().contains(
                    other,
                ) && (left.dom().contains(other) ==> left[other] == approvals[other])
        }),
{
    crate::policy::approval::drift_is_refused(
        approvals,
        (origin, pane_id),
        command,
        ctx,
        now,
    );
}

/// A command can be sent exactly if the newest command of the pane has ended,
/// none is in execution, nothing says that the pane is busy, nobody types at its
/// prompt, and its shell is not known to be without integration.
pub proof fn command_is_sent_to_a_free_pane(
    p: PaneProcessor,
    pane_id: Seq<char>,
    leaf_pid: u32,
    marker_age: Seq<char>,
)
    ensures
        pane_error(p, pane_id, leaf_pid, marker_age) is None <==> {
            &&& p.state@.commands.len() > 0 ==> p.state@.commands[0].completed
            &&& p.state@.activity != crate::pane::state::Activity::Busy
            &&& !(p.osc133@.phase is Executing)
            &&& !(p.osc133@.phase is Input && p.state@.input_start is Some
                && crate::pane::processor::typed(
                p.rows(),
                p.state@.input_start->0,
                p.cursor().0 as int,
            ))
            &&& cached(p.state@.osc133_cache, leaf_pid) != Some(false)
        },
{
}

/// The context that the policy looks at is that of the pane: its directory, host
/// and user as the shell has told them, and the process in its foreground.
pub proof fn context_is_of_the_pane(t: TrackedPane, info: Option<ProcInfo>)
    ensures
        context_of(t, info).cwd == t.processor.state@.cwd,
        context_of(t, info).hostname == t.processor.state@.hostname,
        context_of(t, info).user == t.processor.state@.user,
        context_of(t, info).foreground == foreground_name(info),
        context_of(t, info).moved is Unchanged,
{
}

/// A time after another is not before it, and never beyond what can be told.
pub proof fn later_is_not_before(now: u64, nanos: int)
    requires
        0 <= nanos,
    ensures
        now <= later(now, nanos) <= u64::MAX,
        now + nanos <= u64::MAX ==> later(now, nanos) == now + nanos,
        now + nanos > u64::MAX ==> later(now, nanos) == u64::MAX,
        forall|before: u64| before <= now ==> #[trigger] span(before, now) == now - before,
        forall|before: u64| before > now ==> #[trigger] span(before, now) == 0,
{
}

/// The newest command is the first of the history, and 0 stands for none.
pub proof fn newest_is_first(s: StateModel)
    ensures
        s.commands.len() > 0 ==> newest(s) == s.commands[0].id,
        s.commands.len() == 0 ==> newest(s) == 0,
        s.history_ordered() ==> forall|i: int|
            0 <= i < s.commands.len() ==> (#[trigger] s.commands[i]).id <= newest(s),
{
}

} // verus!
