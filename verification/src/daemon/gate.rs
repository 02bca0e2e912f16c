//! What stands between a request and a pane: lints, the policy, the state of the
//! pane and its shell integration.

use crate::daemon::rpc::{required, RpcError, INTERNAL, INVALID_PARAMS, POLICY};
use crate::lint::{lint_command_run, lint_of};
use crate::mcp::{middle_is_told, tells};
use crate::pane::osc133::PhaseModel;
use crate::pane::processor::{screen_texts, PaneProcessor};
use crate::pane::state::{cache_after, cached, Activity, PaneState, StateModel};
use crate::policy::approval::{unexpired, verification, ApprovalModel, ApprovalStore};
use crate::policy::parse::EffectiveModel;
use crate::policy::{evaluate, policy_of, CompiledPolicy, Decision, PaneContext, PaneModel, PolicyResult};
use crate::proc::{foreground_comm, foreground_name, ProcInfo};
use crate::text::{decimal, decimal_string, join, joined, texts};
use vstd::prelude::*;
use vstd::string::StringExecFns;

verus! {

/// Why a request to run a command is refused before anything is looked up; none
/// where it is not.
pub open spec fn request_error(
    pane_id: Option<Seq<char>>,
    command: Option<Seq<char>>,
    origin: Option<Seq<char>>,
) -> Option<Seq<char>> {
    if pane_id is None {
        Some("pane_id is required"@)
    } else if command is None {
        Some("command is required"@)
    } else if origin is None {
        Some("origin_pane is required"@)
    } else {
        lint_of(command->0)
    }
}

/// A text that may be missing, mathematically.
pub open spec fn opt_str(s: Option<&str>) -> Option<Seq<char>> {
    match s {
        Some(t) => Some(t@),
        None => None,
    }
}

/// Check a request to run a command: pane, command and origin are given, and the
/// command passes the lints.
pub fn check_run_request(
    pane_id: Option<&str>,
    command: Option<&str>,
    origin_pane: Option<&str>,
) -> (r: Result<(), RpcError>)
    ensures
        match request_error(opt_str(pane_id), opt_str(command), opt_str(origin_pane)) {
            None => r is Ok,
            Some(message) => r matches Err(e) && e.is(INVALID_PARAMS, message),
        },
{
    proof {
        reveal_strlit("pane_id");
        reveal_strlit("command");
        reveal_strlit("origin_pane");
        reveal_strlit(" is required");
        reveal_strlit("pane_id is required");
        reveal_strlit("command is required");
        reveal_strlit("origin_pane is required");
        assert("pane_id"@ + " is required"@ =~= "pane_id is required"@);
        assert("command"@ + " is required"@ =~= "command is required"@);
        assert("origin_pane"@ + " is required"@ =~= "origin_pane is required"@);
    }
    if let Err(e) = required(pane_id, "pane_id") {
        return Err(e);
    }
    let text = match required(command, "command") {
        Ok(c) => c,
        Err(e) => {
            return Err(e);
        },
    };
    if let Err(e) = required(origin_pane, "origin_pane") {
        return Err(e);
    }
    match lint_command_run(text) {
        Ok(()) => Ok(()),
        Err(e) => Err(RpcError::invalid_params(e.message)),
    }
}

/// The context of a pane that the policy looks at.
pub fn pane_context(state: &PaneState, info: &Option<ProcInfo>) -> (r: PaneContext)
    ensures
        r@ == (PaneModel {
            hostname: state@.hostname,
            cwd: state@.cwd,
            foreground: foreground_name(*info),
            user: state@.user,
            moved: EffectiveModel::Unchanged,
        }),
{
    PaneContext {
        hostname: state.hostname.clone(),
        cwd: state.cwd.clone(),
        foreground: foreground_comm(info),
        user: state.user.clone(),
    }
}

/// The text for a command that the policy denies.
pub open spec fn denied_text(rule: Seq<char>) -> Seq<char> {
    "Policy denied (rule: "@ + rule + ")"@
}

/// The text for a command that needs an approval and has none.
pub open spec fn unapproved_text(why: Seq<char>, rule: Seq<char>) -> Seq<char> {
    "Policy: "@ + why + " (rule: "@ + rule
        + "). Install the tmux-mcp policy hook for interactive approval, or update the policy."@
}

/// Ask the policy whether a command may run, and use up an approval where one is
/// needed. `live_ctx` is the context once the policy has spoken.
pub fn check_policy(
    command: &str,
    origin: &str,
    pane_id: &str,
    ctx: &PaneContext,
    live_ctx: &PaneContext,
    policy: &CompiledPolicy,
    approvals: &mut ApprovalStore,
    now: u64,
) -> (r: Result<(), RpcError>)
    ensures
        ({
            let (decision, rule) = policy_of(command@, ctx@, *policy);
            let (why, left) = verification(
                old(approvals)@,
                (origin@, pane_id@),
                command@,
                live_ctx@,
                now as int,
            );
            match decision {
                Decision::Allow => r is Ok && final(approvals)@ == old(approvals)@,
                Decision::Deny => r matches Err(e) && e.is(POLICY, denied_text(rule))
                    && final(approvals)@ == old(approvals)@,
                Decision::Ask => final(approvals)@ == left && match why {
                    None => r is Ok,
                    Some(message) => r matches Err(e) && e.is(
                        POLICY,
                        unapproved_text(message, rule),
                    ),
                },
            }
        }),
{
    let result = evaluate(command, ctx, policy);
    match result.decision {
        Decision::Allow => Ok(()),
        Decision::Deny => {
            let mut message = "Policy denied (rule: ".to_owned();
            message.append(result.rule.as_str());
            message.append(")");
            Err(RpcError { code: POLICY, message })
        },
        Decision::Ask => match approvals.verify_and_consume(origin, pane_id, command, live_ctx, now) {
            Ok(()) => Ok(()),
            Err(why) => {
                let mut message = "Policy: ".to_owned();
                message.append(why.as_str());
                message.append(" (rule: ");
                message.append(result.rule.as_str());
                message.append(
                    "). Install the tmux-mcp policy hook for interactive approval, or update the policy.",
                );
                Err(RpcError { code: POLICY, message })
            },
        },
    }
}

/// Ask the policy about a command. Where it asks back, the request is noted: if
/// it is approved, the command can run.
pub fn request_approval(
    command: &str,
    origin: &str,
    pane_id: &str,
    ctx: &PaneContext,
    policy: &CompiledPolicy,
    approvals: &mut ApprovalStore,
    now: u64,
) -> (r: PolicyResult)
    ensures
        (r.decision, r.rule@) == policy_of(command@, ctx@, *policy),
        final(approvals)@ == (if r.decision == Decision::Ask {
            unexpired(old(approvals)@, now as int).insert(
                (origin@, pane_id@),
                ApprovalModel { command: command@, ctx: ctx@, created_at: now as int },
            )
        } else {
            old(approvals)@
        }),
{
    let result = evaluate(command, ctx, policy);
    if result.decision == Decision::Ask {
        approvals.store(origin, pane_id, command, ctx, now);
    }
    result
}

/// A command that the policy asks about runs once it was approved, in the same
/// context and in time, and not a second time.
pub proof fn approved_command_runs_once(
    m: Map<(Seq<char>, Seq<char>), ApprovalModel>,
    k: (Seq<char>, Seq<char>),
    command: Seq<char>,
    ctx: PaneModel,
    asked: int,
    now: int,
    later: int,
)
    requires
        now - asked < crate::policy::approval::APPROVAL_TTL_NANOS,
    ensures
        ({
            let noted = unexpired(m, asked).insert(
                k,
                ApprovalModel { command, ctx, created_at: asked },
            );
            let (why, left) = verification(noted, k, command, ctx, now);
            why is None && verification(left, k, command, ctx, later).0 is Some
        }),
{
    crate::policy::approval::approval_serves_once(m, k, command, ctx, asked, now, later);
}

/// Lines without the empty ones at the end.
pub open spec fn without_blank_tail(lines: Seq<Seq<char>>) -> Seq<Seq<char>>
    decreases lines.len(),
{
    if lines.len() > 0 && lines.last().len() == 0 {
        without_blank_tail(lines.drop_last())
    } else {
        lines
    }
}

/// The last `n` lines of a screen, without the empty ones at the end.
pub open spec fn captured(screen: Seq<Seq<char>>, n: int) -> Seq<char> {
    let from = if n < screen.len() {
        screen.len() - n
    } else {
        0
    };
    joined(without_blank_tail(screen.subrange(from, screen.len() as int)), "\n"@)
}

/// The last `lines` lines of a pane's screen, without the empty ones at the end.
pub fn capture_screen(p: &PaneProcessor, lines: usize) -> (r: String)
    ensures
        r@ == captured(screen_texts(p.rows()), lines as int),
{
    let all = p.screen_text();
    let total: usize = all.len();
    let ghost screen = texts(all@);
    let from: usize = if lines < total {
        total - lines
    } else {
        0
    };
    let mut to: usize = total;
    while to > from && all[to - 1].as_str().is_empty()
        invariant
            from <= to <= total == all@.len(),
            screen == texts(all@),
            without_blank_tail(screen.subrange(from as int, total as int)) == without_blank_tail(
                screen.subrange(from as int, to as int),
            ),
        decreases to,
    {
        let ghost part = screen.subrange(from as int, to as int);
        assert(part.last() == all@[to - 1]@);
        assert(part.drop_last() =~= screen.subrange(from as int, to - 1));
        to = to - 1;
    }
    let part = vstd::slice::slice_subrange(all.as_slice(), from, to);
    assert(texts(part@) =~= screen.subrange(from as int, to as int));
    join(part, "\n")
}

/// Number of lines shown with an error.
pub const ERROR_LINES: usize = 20;

/// The screen at the end of an error.
pub open spec fn screen_note(rows: Seq<Seq<char>>) -> Seq<char> {
    "\n\nScreen:\n"@ + captured(screen_texts(rows), ERROR_LINES as int)
}

/// An internal error with the screen at its end.
fn error_with_screen(text: String, p: &PaneProcessor) -> (r: RpcError)
    ensures
        r.is(INTERNAL, text@ + screen_note(p.rows())),
{
    let mut message = text;
    let ghost head = message@;
    message.append("\n\nScreen:\n");
    let screen = capture_screen(p, ERROR_LINES);
    message.append(screen.as_str());
    assert(message@ =~= head + screen_note(p.rows()));
    RpcError::internal(message)
}

/// Whether a command runs in a pane.
pub open spec fn is_busy(p: PaneProcessor) -> bool {
    (p.state@.commands.len() > 0 && !p.state@.commands[0].completed) || p.state@.activity
        == Activity::Busy || p.osc133@.phase is Executing
}

/// The text of the command that runs in a pane.
pub open spec fn running_text(p: PaneProcessor) -> Seq<char> {
    match p.osc133@.phase {
        PhaseModel::Executing(text) => text,
        _ => if p.state@.commands.len() > 0 && !p.state@.commands[0].completed {
            p.state@.commands[0].command
        } else {
            "(unknown command)"@
        },
    }
}

/// The text for a pane in which a command runs.
pub open spec fn busy_text(pane_id: Seq<char>, command: Seq<char>) -> Seq<char> {
    "Pane "@ + pane_id + " is busy running '"@ + command
        + "'. Use command_read to check status or wait."@
}

/// The text for a pane in which someone types.
pub open spec fn typing_text(pane_id: Seq<char>) -> Seq<char> {
    "User is typing in pane "@ + pane_id + ". Wait for them to finish or use a different pane."@
}

/// Whether something has been typed at the prompt and not been run.
pub open spec fn is_typing(p: PaneProcessor) -> bool {
    p.osc133@.phase is Input && (p.state@.input_start matches Some(from)
        && crate::pane::processor::typed(p.rows(), from, p.cursor().0 as int))
}

/// Check that a command can be sent to a pane: none runs in it, and nobody
/// types.
pub fn check_idle(p: &PaneProcessor, pane_id: &str) -> (r: Result<(), RpcError>)
    ensures
        if is_busy(*p) {
            r matches Err(e) && e.is(
                INTERNAL,
                busy_text(pane_id@, running_text(*p)) + screen_note(p.rows()),
            )
        } else if is_typing(*p) {
            r matches Err(e) && e.is(INTERNAL, typing_text(pane_id@) + screen_note(p.rows()))
        } else {
            r is Ok
        },
{
    let active = p.state.active_command();
    let executing = p.osc133.executing_command();
    let busy = match p.state.activity {
        Activity::Busy => true,
        _ => false,
    };
    if active.is_some() || busy || executing.is_some() {
        let command: &str = match executing {
            Some(text) => text,
            None => match active {
                Some(c) => c.command.as_str(),
                None => "(unknown command)",
            },
        };
        let mut text = "Pane ".to_owned();
        text.append(pane_id);
        text.append(" is busy running '");
        text.append(command);
        text.append("'. Use command_read to check status or wait.");
        return Err(error_with_screen(text, p));
    }
    if p.has_input_content() {
        let mut text = "User is typing in pane ".to_owned();
        text.append(pane_id);
        text.append(". Wait for them to finish or use a different pane.");
        return Err(error_with_screen(text, p));
    }
    Ok(())
}

/// What is known of the shell integration of the process in the foreground.
#[derive(Debug, Clone, Copy, PartialEq, Eq, Structural)]
pub enum MarkerGate {
    /// It works.
    Proceed,
    /// It is unknown whether it works.
    Probe,
    /// It does not work.
    Refuse,
}

/// What is known of the shell integration of a process.
pub fn marker_gate(p: &PaneProcessor, leaf_pid: u32) -> (r: MarkerGate)
    ensures
        r == (match cached(p.state@.osc133_cache, leaf_pid) {
            Some(true) => MarkerGate::Proceed,
            Some(false) => MarkerGate::Refuse,
            None => MarkerGate::Probe,
        }),
{
    match p.state.osc133_lookup(leaf_pid) {
        Some(ok) => if ok {
            MarkerGate::Proceed
        } else {
            MarkerGate::Refuse
        },
        None => MarkerGate::Probe,
    }
}

/// The error for a process whose shell integration does not work. `marker_age`
/// is the time since the last marker, written out.
pub fn refuse_without_markers(p: &PaneProcessor, marker_age: &str) -> (r: RpcError)
    ensures
        r.is(
            INTERNAL,
            "OSC 133 not active for this pane. Use inject_osc133 to enable shell integration.\n\nosc133_last_marker_secs: "@
                + marker_age@ + screen_note(p.rows()),
        ),
{
    let mut text =
        "OSC 133 not active for this pane. Use inject_osc133 to enable shell integration.\n\nosc133_last_marker_secs: ".to_owned();
    text.append(marker_age);
    error_with_screen(text, p)
}

/// Look whether a probe was answered: `None` where it has to wait. A probe is
/// answered by the end of a command that was not counted before.
pub fn probe_poll(seq_before: u64, seq_now: u64, expired: bool) -> (r: Option<bool>)
    ensures
        r == (if seq_now > seq_before {
            Some(true)
        } else if expired {
            Some(false)
        } else {
            None
        }),
{
    if seq_now > seq_before {
        Some(true)
    } else if expired {
        Some(false)
    } else {
        None
    }
}

/// A pane with the outcome of a probe noted.
pub open spec fn probed(p: PaneProcessor, leaf_pid: u32, ok: bool) -> StateModel {
    StateModel { osc133_cache: cache_after(p.state@.osc133_cache, leaf_pid, ok), ..p.state@ }
}

/// Whether only the state of a pane has changed.
pub open spec fn same_but_state(a: PaneProcessor, b: PaneProcessor) -> bool {
    a == (PaneProcessor { state: a.state, ..b })
}

/// Note the outcome of a probe before a command.
pub fn after_probe(p: &mut PaneProcessor, leaf_pid: u32, ok: bool) -> (r: Result<(), RpcError>)
    ensures
        final(p).state@ == probed(*old(p), leaf_pid, ok),
        same_but_state(*final(p), *old(p)),
        if ok {
            r is Ok
        } else {
            r matches Err(e) && e.is(
                INTERNAL,
                "OSC 133 probe failed — no markers detected. Use inject_osc133 to enable shell integration."@
                    + screen_note(old(p).rows()),
            )
        },
{
    if ok {
        p.state.osc133_confirm(leaf_pid);
        Ok(())
    } else {
        p.state.osc133_fail(leaf_pid);
        Err(
            error_with_screen(
                "OSC 133 probe failed — no markers detected. Use inject_osc133 to enable shell integration.".to_owned(),
                p,
            ),
        )
    }
}

/// Note that a command was sent and no marker came.
pub fn markers_missing(p: &mut PaneProcessor, leaf_pid: u32) -> (r: RpcError)
    ensures
        final(p).state@ == probed(*old(p), leaf_pid, false),
        same_but_state(*final(p), *old(p)),
        r.is(
            INTERNAL,
            "Command was sent but no OSC 133 markers detected. Shell integration may have stopped working. Use debug_pane to inspect pane state."@
                + screen_note(old(p).rows()),
        ),
{
    p.state.osc133_fail(leaf_pid);
    error_with_screen(
        "Command was sent but no OSC 133 markers detected. Shell integration may have stopped working. Use debug_pane to inspect pane state.".to_owned(),
        p,
    )
}

/// After a probe the outcome is known, and it is the outcome that was noted.
pub proof fn probe_is_remembered(p: PaneProcessor, leaf_pid: u32, ok: bool)
    ensures
        cached(probed(p, leaf_pid, ok).osc133_cache, leaf_pid) == Some(ok),
{
    let cache = cache_after(p.state@.osc133_cache, leaf_pid, ok);
    assert(cache[0] == (leaf_pid, ok));
}

/// What came of putting shell integration into a shell.
#[derive(Debug, Clone, PartialEq, Eq)]
pub enum InjectReply {
    /// It was there.
    AlreadyActive,
    /// It is there now.
    Active,
    /// It is not there; the screen shows what happened.
    Failed { screen: String },
}

/// The text for shell integration that does not work.
pub const INJECT_FAILED: &'static str =
    "Injection sent but no markers detected. Shell may not be bash.";

/// Note the outcome of the probe before anything is put in: where there is an
/// answer, there is nothing more to do.
pub fn before_inject(p: &mut PaneProcessor, leaf_pid: u32, ok: bool) -> (r: Option<InjectReply>)
    ensures
        ok ==> final(p).state@ == probed(*old(p), leaf_pid, true) && r is Some && r->0 is AlreadyActive,
        !ok ==> *final(p) == *old(p) && r is None,
        same_but_state(*final(p), *old(p)),
{
    if ok {
        p.state.osc133_confirm(leaf_pid);
        Some(InjectReply::AlreadyActive)
    } else {
        None
    }
}

/// Note the outcome of the probe after shell integration was put in.
pub fn after_inject(p: &mut PaneProcessor, leaf_pid: u32, ok: bool) -> (r: InjectReply)
    ensures
        final(p).state@ == probed(*old(p), leaf_pid, ok),
        same_but_state(*final(p), *old(p)),
        if ok {
            r is Active
        } else {
            r matches InjectReply::Failed { screen } && screen@ == captured(
                screen_texts(old(p).rows()),
                ERROR_LINES as int,
            )
        },
{
    if ok {
        p.state.osc133_confirm(leaf_pid);
        InjectReply::Active
    } else {
        p.state.osc133_fail(leaf_pid);
        InjectReply::Failed { screen: capture_screen(p, ERROR_LINES) }
    }
}

/// The script that puts OSC 133 and OSC 7 into bash. Each line starts with a
/// space, so that it does not go to the history.
pub const OSC133_INJECT_LINES: [&'static str; 3] = [
    " __osc133_exec_ready=true; __osc7_cwd() { printf '\\e]7;file://%s@%s%s\\e\\\\' \"$USER\" \"$(hostname)\" \"$PWD\"; }; __osc133_precmd() { local ret=$?; __osc133_exec_ready=true; printf '\\e]133;D;%d\\e\\\\\\e]133;A\\e\\\\' \"$ret\"; __osc7_cwd; return \"$ret\"; }; PROMPT_COMMAND=\"__osc133_precmd;${PROMPT_COMMAND:-}\"",
    " __osc133_debug() { if $__osc133_exec_ready; then __osc133_exec_ready=false; local cmd; cmd=$(HISTTIMEFORMAT= builtin history 1 | sed 's/^ *[0-9]* *//'); [[ -n \"$cmd\" ]] && printf '\\e]133;E;%s\\e\\\\' \"$cmd\"; fi; }; trap '__osc133_debug \"$_\"' DEBUG",
    " PS1=\"${PS1}\"$'\\001\\e]133;B\\e\\\\\\002'; PS0+='\\[\\e]133;C\\e\\\\\\]'",
];

/// Greatest length of a key's name, in bytes.
pub const MAX_KEYS: usize = 5;

/// Check that what is to be pressed is a key and no command.
pub fn check_keys(keys: &str) -> (r: Result<(), RpcError>)
    ensures
        ({
            let n = vstd::utf8::encode_utf8(keys@).len();
            if n > MAX_KEYS {
                r matches Err(e) && e.is(
                    INVALID_PARAMS,
                    "keys too long: "@ + decimal(n)
                        + " chars (max 5). Use command_run for commands."@,
                )
            } else {
                r is Ok
            }
        }),
{
    let n: usize = keys.as_bytes().len();
    if n > MAX_KEYS {
        let mut message = "keys too long: ".to_owned();
        let digits = decimal_string(n as u64);
        message.append(digits.as_str());
        message.append(" chars (max 5). Use command_run for commands.");
        Err(RpcError::invalid_params(message))
    } else {
        Ok(())
    }
}

/// Number of lines of a screen that are captured where none is given.
pub const CAPTURE_LINES: u64 = 50;

/// Greatest number of lines of a screen that are captured.
pub const MAX_CAPTURE_LINES: u64 = 1000;

/// Number of lines of a screen that are captured.
pub fn capture_lines(lines: Option<u64>) -> (r: usize)
    ensures
        r == (match lines {
            Some(n) => if n < MAX_CAPTURE_LINES {
                n as int
            } else {
                MAX_CAPTURE_LINES as int
            },
            None => CAPTURE_LINES as int,
        }),
{
    match lines {
        Some(n) => if n < MAX_CAPTURE_LINES {
            n as usize
        } else {
            1000
        },
        None => 50,
    }
}

/// A request is looked into exactly if pane, command and origin are given and the
/// lints have nothing to say about the command.
pub proof fn request_is_complete(
    pane_id: Option<Seq<char>>,
    command: Option<Seq<char>>,
    origin: Option<Seq<char>>,
)
    ensures
        request_error(pane_id, command, origin) is None <==> pane_id is Some && origin is Some
            && command is Some && lint_of(command->0) is None,
        pane_id is Some && command is Some && origin is Some ==> request_error(
            pane_id,
            command,
            origin,
        ) == lint_of(command->0),
{
}

/// What is captured of a screen are its last `n` lines, up to the last of them
/// that is not empty.
pub proof fn screen_is_captured(screen: Seq<Seq<char>>, n: int, k: int)
    requires
        0 <= n,
        n <= screen.len() ==> screen.len() - n <= k,
        0 <= k <= screen.len(),
        forall|i: int| k <= i < screen.len() ==> (#[trigger] screen[i]).len() == 0,
        k > 0 && (n <= screen.len() ==> screen.len() - n < k) ==> screen[k - 1].len() > 0,
    ensures
        captured(screen, n) == joined(
            screen.subrange(
                if n <= screen.len() {
                    screen.len() - n
                } else {
                    0
                },
                k,
            ),
            "\n"@,
        ),
{
    let from = if n < screen.len() {
        screen.len() - n
    } else {
        0
    };
    let part = screen.subrange(from, screen.len() as int);
    assert forall|i: int| k - from <= i < part.len() implies (#[trigger] part[i]).len() == 0 by {
        assert(part[i] == screen[from + i]);
    }
    if k - from > 0 {
        assert(part[k - from - 1] == screen[k - 1]);
    }
    blank_tail_is_dropped(part, k - from);
    assert(part.subrange(0, k - from) =~= screen.subrange(from, k));
}

/// The empty lines at the end are dropped, and no others.
proof fn blank_tail_is_dropped(lines: Seq<Seq<char>>, k: int)
    requires
        0 <= k <= lines.len(),
        forall|i: int| k <= i < lines.len() ==> (#[trigger] lines[i]).len() == 0,
        k > 0 ==> lines[k - 1].len() > 0,
    ensures
        without_blank_tail(lines) == lines.subrange(0, k),
    decreases lines.len(),
{
    if k < lines.len() {
        assert(lines[lines.len() - 1].len() == 0);
        blank_tail_is_dropped(lines.drop_last(), k);
        assert(lines.drop_last().subrange(0, k) =~= lines.subrange(0, k));
    } else {
        assert(lines.subrange(0, k) =~= lines);
    }
}

/// What is said of a pane that cannot take a command names the pane and what it is
/// running, and what is said of a refused command names the rule.
pub proof fn refusals_give_the_reason(
    pane_id: Seq<char>,
    command: Seq<char>,
    why: Seq<char>,
    rule: Seq<char>,
)
    ensures
        tells(busy_text(pane_id, command), pane_id),
        tells(busy_text(pane_id, command), command),
        tells(typing_text(pane_id), pane_id),
        tells(denied_text(rule), rule),
        tells(unapproved_text(why, rule), why),
        tells(unapproved_text(why, rule), rule),
{
    let a = "Pane "@;
    let b = " is busy running '"@;
    let c = "'. Use command_read to check status or wait."@;
    assert(busy_text(pane_id, command) =~= a + pane_id + (b + command + c));
    middle_is_told(a, pane_id, b + command + c);
    assert(busy_text(pane_id, command) =~= (a + pane_id + b) + command + c);
    middle_is_told(a + pane_id + b, command, c);
    middle_is_told(
        "User is typing in pane "@,
        pane_id,
        ". Wait for them to finish or use a different pane."@,
    );
    middle_is_told("Policy denied (rule: "@, rule, ")"@);
    let p = "Policy: "@;
    let q = " (rule: "@;
    let r =
        "). Install the tmux-mcp policy hook for interactive approval, or update the policy."@;
    assert(unapproved_text(why, rule) =~= p + why + (q + rule + r));
    middle_is_told(p, why, q + rule + r);
    assert(unapproved_text(why, rule) =~= (p + why + q) + rule + r);
    middle_is_told(p + why + q, rule, r);
}

/// The command that a busy pane is said to run is the one that its shell reported,
/// or else the newest that was sent and has not completed.
pub proof fn running_command_is_named(p: PaneProcessor, command: Seq<char>)
    ensures
        p.osc133@.phase == PhaseModel::Executing(command) ==> running_text(p) == command,
        !(p.osc133@.phase is Executing) && p.state@.commands.len() > 0
            && !p.state@.commands[0].completed ==> running_text(p) == p.state@.commands[0].command,
{
}

/// Blank lines at the end are left out, and no others.
pub proof fn blank_tail_is_left_out(lines: Seq<Seq<char>>, blank: Seq<Seq<char>>)
    requires
        lines.len() == 0 || lines.last().len() > 0,
        forall|i: int| 0 <= i < blank.len() ==> (#[trigger] blank[i]).len() == 0,
    ensures
        without_blank_tail(lines + blank) == lines,
    decreases blank.len(),
{
    let all = lines + blank;
    if blank.len() > 0 {
        let fewer = blank.drop_last();
        assert(all.last() == blank[blank.len() - 1]);
        assert(all.drop_last() =~= lines + fewer);
        assert forall|i: int| 0 <= i < fewer.len() implies (#[trigger] fewer[i]).len() == 0 by {
            assert(fewer[i] == blank[i]);
        }
        blank_tail_is_left_out(lines, fewer);
    } else {
        assert(all =~= lines);
    }
}

} // verus!
