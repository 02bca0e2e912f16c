//! Policy engine: decides whether a command should run in a given pane context.
//!
//! 1. The command line is parsed to a flat list of commands.
//! 2. Structural checks (parse failure, a name that is an expansion) deny.
//! 3. Rules are tried in order, the first match decides.
//! 4. The most restrictive result over all commands wins.

pub mod approval;
pub mod args;
pub mod builtin;
pub mod builtins;
pub mod caution;
pub mod cel;
pub mod config;
pub mod functions;
pub mod getopt;
pub mod grammar;
pub mod lineage;
pub mod parse;
pub mod path;
pub mod rules;
pub mod structural;
pub mod syntax;
pub mod value;
pub mod wrappers;

use self::builtin::builtin_registry;
use self::parse::{commands_of, models, parse_command_with_registry, CommandInfo, CommandModel, Effective, EffectiveModel, InnerExtraction, WrapperRegistry};
use self::rules::{pane_after, verdict, RuleSet};
use self::structural::{first_unknowable, names_of};
use crate::text::{chars_of, opt_eq, opt_text, string_of, trim_chars, trimmed};
use vstd::prelude::*;
use vstd::string::StringExecFns;

verus! {

/// Pane context used for policy evaluation.
#[derive(PartialEq, Eq, Debug)]
pub struct PaneContext {
    pub hostname: Option<String>,
    pub cwd: Option<String>,
    pub foreground: Option<String>,
    pub user: Option<String>,
}

/// A pane context, mathematically.
pub struct PaneModel {
    pub hostname: Option<Seq<char>>,
    pub cwd: Option<Seq<char>>,
    pub foreground: Option<Seq<char>>,
    pub user: Option<Seq<char>>,
    /// The directory to which commands have moved.
    pub moved: EffectiveModel,
}

impl View for PaneContext {
    type V = PaneModel;

    open spec fn view(&self) -> PaneModel {
        PaneModel {
            hostname: opt_text(self.hostname),
            cwd: opt_text(self.cwd),
            foreground: opt_text(self.foreground),
            user: opt_text(self.user),
            moved: EffectiveModel::Unchanged,
        }
    }
}

impl Clone for PaneContext {
    fn clone(&self) -> (r: PaneContext)
        ensures
            r@ == self@,
    {
        PaneContext {
            hostname: self.hostname.clone(),
            cwd: self.cwd.clone(),
            foreground: self.foreground.clone(),
            user: self.user.clone(),
        }
    }
}

impl PaneContext {
    /// Whether nothing differs between two contexts.
    pub fn same_as(&self, other: &PaneContext) -> (r: bool)
        ensures
            r == (self@ == other@),
    {
        opt_eq(&self.hostname, &other.hostname) && opt_eq(&self.cwd, &other.cwd) && opt_eq(
            &self.foreground,
            &other.foreground,
        ) && opt_eq(&self.user, &other.user)
    }
}

/// What the policy says about a command, and the rule that says so.
#[derive(Debug)]
pub struct PolicyResult {
    pub decision: Decision,
    pub rule: String,
}

/// A policy decision.
#[derive(Debug, Clone, Copy, PartialEq, Eq, Structural)]
pub enum Decision {
    Allow,
    Ask,
    Deny,
}

/// How restrictive a decision is.
pub open spec fn rank(d: Decision) -> int {
    match d {
        Decision::Allow => 0,
        Decision::Ask => 1,
        Decision::Deny => 2,
    }
}

/// How restrictive a decision is.
fn severity(d: &Decision) -> (r: u8)
    ensures
        r == rank(*d),
{
    match d {
        Decision::Allow => 0,
        Decision::Ask => 1,
        Decision::Deny => 2,
    }
}

/// The pane as the first `n` commands leave it for those after them.
pub open spec fn pane_before(
    commands: Seq<CommandModel>,
    n: int,
    pane: PaneModel,
    set: RuleSet,
) -> PaneModel
    decreases n,
{
    if n <= 0 || n > commands.len() {
        pane
    } else {
        let before = pane_before(commands, n - 1, pane, set);
        let c = commands[n - 1];
        if c.inner == InnerExtraction::Transparent {
            before
        } else {
            pane_after(c, before, set)
        }
    }
}

/// The most restrictive verdict over the first `n` commands, the earliest one
/// among equals. Transparent wrappers are skipped; `None` where nothing is left.
pub open spec fn worst_verdict(
    commands: Seq<CommandModel>,
    n: int,
    pane: PaneModel,
    set: RuleSet,
) -> Option<(Decision, Seq<char>)>
    decreases n,
{
    if n <= 0 || n > commands.len() {
        None
    } else {
        let before = worst_verdict(commands, n - 1, pane, set);
        let c = commands[n - 1];
        if c.inner == InnerExtraction::Transparent {
            before
        } else {
            let v = verdict(c, pane_before(commands, n - 1, pane, set), set);
            match before {
                Some(w) => if rank(w.0) >= rank(v.0) {
                    before
                } else {
                    Some(v)
                },
                None => Some(v),
            }
        }
    }
}

/// The verdict over all commands.
pub open spec fn overall_verdict(
    commands: Seq<CommandModel>,
    pane: PaneModel,
    set: RuleSet,
) -> (Decision, Seq<char>) {
    match worst_verdict(commands, commands.len() as int, pane, set) {
        Some(v) => v,
        None => (set.default, "default"@),
    }
}

/// Once a command is denied, no later one changes the verdict.
proof fn denial_stands(commands: Seq<CommandModel>, n: int, m: int, pane: PaneModel, set: RuleSet)
    requires
        0 <= n <= m <= commands.len(),
        worst_verdict(commands, n, pane, set) is Some,
        (worst_verdict(commands, n, pane, set)->0).0 == Decision::Deny,
    ensures
        worst_verdict(commands, m, pane, set) == worst_verdict(commands, n, pane, set),
    decreases m - n,
{
    if n < m {
        denial_stands(commands, n, m - 1, pane, set);
    }
}

/// Every evaluated command bounds the verdict from below: the verdict is at
/// least as restrictive as what the rules say about it.
pub proof fn verdict_is_most_restrictive(
    commands: Seq<CommandModel>,
    n: int,
    i: int,
    pane: PaneModel,
    set: RuleSet,
)
    requires
        0 <= i < n <= commands.len(),
        commands[i].inner != InnerExtraction::Transparent,
    ensures
        worst_verdict(commands, n, pane, set) is Some,
        rank((worst_verdict(commands, n, pane, set)->0).0) >= rank(
            verdict(commands[i], pane_before(commands, i, pane, set), set).0,
        ),
    decreases n,
{
    if i < n - 1 {
        verdict_is_most_restrictive(commands, n - 1, i, pane, set);
    }
}

/// The verdict is what the rules say about one of the commands.
pub proof fn verdict_has_a_cause(
    commands: Seq<CommandModel>,
    n: int,
    pane: PaneModel,
    set: RuleSet,
)
    requires
        0 <= n <= commands.len(),
    ensures
        match worst_verdict(commands, n, pane, set) {
            Some(v) => exists|i: int|
                0 <= i < n && (#[trigger] commands[i]).inner != InnerExtraction::Transparent
                    && verdict(commands[i], pane_before(commands, i, pane, set), set) == v,
            None => forall|i: int|
                0 <= i < n ==> (#[trigger] commands[i]).inner == InnerExtraction::Transparent,
        },
    decreases n,
{
    if n > 0 {
        verdict_has_a_cause(commands, n - 1, pane, set);
        let c = commands[n - 1];
        assert(c.inner == commands[n - 1].inner);
    }
}

/// Where no rule captures a directory, every command is judged in the pane as it
/// is.
pub proof fn directory_stays_without_capture(
    commands: Seq<CommandModel>,
    n: int,
    pane: PaneModel,
    set: RuleSet,
)
    requires
        forall|i: int|
            0 <= i < set.rules@.len() ==> (#[trigger] set.rules@[i]).capture_cwd is None,
    ensures
        pane_before(commands, n, pane, set) == pane,
    decreases n,
{
    if 0 < n <= commands.len() {
        directory_stays_without_capture(commands, n - 1, pane, set);
        let c = commands[n - 1];
        let ctx = self::rules::context_of(c, pane, crate::text::texts(set.project_dirs@));
        self::rules::first_applying_is_first(set.rules@, 0, c, pane, ctx);
        let i = self::rules::first_applying(set.rules@, 0, c, pane, ctx);
        if i < set.rules@.len() {
            assert(set.rules@[i].capture_cwd is None);
        }
    }
}

/// Commands change no more of the pane than the directory they run in.
pub proof fn only_the_directory_is_captured(
    commands: Seq<CommandModel>,
    n: int,
    pane: PaneModel,
    set: RuleSet,
)
    ensures
        pane_before(commands, n, pane, set) == (PaneModel {
            moved: pane_before(commands, n, pane, set).moved,
            ..pane
        }),
    decreases n,
{
    if 0 < n <= commands.len() {
        only_the_directory_is_captured(commands, n - 1, pane, set);
    }
}

/// Evaluate all commands, one after the other. The most restrictive result wins;
/// a denial ends the search.
fn evaluate_all(commands: &[CommandInfo], ctx: &PaneContext, ruleset: &RuleSet) -> (r: PolicyResult)
    ensures
        (r.decision, r.rule@) == overall_verdict(models(commands@), ctx@, *ruleset),
{
    let ghost all = models(commands@);
    let mut worst: Option<PolicyResult> = None;
    let mut moved = Effective::Unchanged;
    let mut i: usize = 0;
    while i < commands.len()
        invariant
            i <= commands@.len(),
            all == models(commands@),
            (PaneModel { moved: moved@, ..ctx@ }) == pane_before(all, i as int, ctx@, *ruleset),
            match worst {
                Some(w) => worst_verdict(all, i as int, ctx@, *ruleset) == Some(
                    (w.decision, w.rule@),
                ),
                None => worst_verdict(all, i as int, ctx@, *ruleset) is None,
            },
        decreases commands@.len() - i,
    {
        assert(all[i as int] == commands@[i as int]@);
        if commands[i].inner != InnerExtraction::Transparent {
            let (result, after) = rules::decide(&commands[i], ctx, &moved, ruleset);
            moved = after;
            let replace = match &worst {
                Some(w) => severity(&w.decision) < severity(&result.decision),
                None => true,
            };
            if replace {
                if result.decision == Decision::Deny {
                    proof {
                        denial_stands(all, i + 1, all.len() as int, ctx@, *ruleset);
                    }
                    return result;
                }
                worst = Some(result);
            }
        }
        i = i + 1;
    }
    match worst {
        Some(w) => w,
        None => PolicyResult { decision: ruleset.default, rule: "default".to_owned() },
    }
}

/// Rules and wrappers compiled from the same configuration.
#[derive(Debug)]
pub struct CompiledPolicy {
    pub rules: RuleSet,
    pub wrappers: WrapperRegistry,
}

/// Whether a text holds a control character other than tab and newline.
pub open spec fn has_control(s: Seq<char>) -> bool {
    exists|i: int| 0 <= i < s.len() && is_control(#[trigger] s[i])
}

/// Whether `c` is a control character other than tab and newline.
pub open spec fn is_control(c: char) -> bool {
    (c as u32) < 0x20 && c != '\t' && c != '\n'
}

/// What the policy says about commands that were extracted, or about a command
/// line that does not parse.
pub open spec fn policy_on(
    commands: Result<Seq<CommandModel>, Seq<char>>,
    pane: PaneModel,
    set: RuleSet,
) -> (Decision, Seq<char>) {
    match commands {
        Err(message) => (Decision::Deny, "structural:parse_failure ("@ + message + ")"@),
        Ok(all) => {
            let names = Seq::new(all.len(), |i: int| all[i].name);
            let i = first_unknowable(names, 0);
            if all.len() == 0 {
                (Decision::Ask, "default"@)
            } else if i < names.len() {
                (
                    Decision::Deny,
                    "structural:unknowable_command (name: "@ + names[i] + ")"@,
                )
            } else {
                overall_verdict(all, pane, set)
            }
        },
    }
}

/// What the policy says about a command line.
pub open spec fn policy_of(
    command: Seq<char>,
    pane: PaneModel,
    policy: CompiledPolicy,
) -> (Decision, Seq<char>) {
    let text = trimmed(command);
    if has_control(text) {
        (Decision::Deny, "structural:unprintable_chars"@)
    } else {
        policy_on(commands_of(text, policy.wrappers@, builtin_registry()), pane, policy.rules)
    }
}

/// Whether a text holds a control character other than tab and newline.
fn holds_control(s: &[char]) -> (r: bool)
    ensures
        r == has_control(s@),
{
    let mut i: usize = 0;
    while i < s.len()
        invariant
            i <= s@.len(),
            forall|j: int| 0 <= j < i ==> !is_control(#[trigger] s@[j]),
        decreases s@.len() - i,
    {
        let c: char = s[i];
        if (c as u32) < 0x20 && c != '\t' && c != '\n' {
            assert(is_control(s@[i as int]));
            return true;
        }
        i = i + 1;
    }
    false
}

/// Decide about extracted commands: deny a name that is an expansion, or else
/// take the most restrictive verdict.
pub fn evaluate_commands(commands: &[CommandInfo], ctx: &PaneContext, rules: &RuleSet) -> (r:
    PolicyResult)
    ensures
        (r.decision, r.rule@) == policy_on(Ok(models(commands@)), ctx@, *rules),
{
    let ghost all = models(commands@);
    assert(names_of(commands@) =~= Seq::new(all.len(), |i: int| all[i].name));
    if commands.len() == 0 {
        return PolicyResult { decision: Decision::Ask, rule: "default".to_owned() };
    }
    match structural::check(commands) {
        Some(denied) => denied,
        None => evaluate_all(commands, ctx, rules),
    }
}

/// Evaluate whether a command line should run in the given pane context.
pub fn evaluate(command: &str, ctx: &PaneContext, policy: &CompiledPolicy) -> (r: PolicyResult)
    ensures
        (r.decision, r.rule@) == policy_of(command@, ctx@, *policy),
{
    let chars = chars_of(command);
    let text = trim_chars(chars.as_slice());
    if holds_control(text) {
        return PolicyResult {
            decision: Decision::Deny,
            rule: "structural:unprintable_chars".to_owned(),
        };
    }
    let line = string_of(text);
    match parse_command_with_registry(line.as_str(), &policy.wrappers) {
        Ok(commands) => evaluate_commands(commands.as_slice(), ctx, &policy.rules),
        Err(e) => {
            let mut rule = "structural:parse_failure (".to_owned();
            rule.append(e.message.as_str());
            rule.append(")");
            PolicyResult { decision: Decision::Deny, rule }
        },
    }
}

/// A line is allowed only if nothing in it is in doubt: its text is printable, it
/// parses to at least one command, no command's name is an expansion, and every
/// command that is judged is allowed itself.
pub proof fn allowed_line_is_allowed_throughout(
    command: Seq<char>,
    pane: PaneModel,
    policy: CompiledPolicy,
)
    requires
        policy_of(command, pane, policy).0 == Decision::Allow,
    ensures
        ({
            let text = trimmed(command);
            let found = commands_of(text, policy.wrappers@, builtin_registry());
            &&& forall|i: int|
                0 <= i < text.len() ==> (#[trigger] text[i]) as u32 >= 32 || text[i] == '\t' || text[i]
                    == '\n'
            &&& found matches Ok(all) && {
                &&& all.len() > 0
                &&& forall|k: int|
                    0 <= k < all.len() ==> !crate::shell::has_expansion((#[trigger] all[k]).name)
                &&& forall|k: int|
                    0 <= k < all.len() && (#[trigger] all[k]).inner != InnerExtraction::Transparent
                        ==> verdict(
                        all[k],
                        pane_before(all, k, pane, policy.rules),
                        policy.rules,
                    ).0 == Decision::Allow
            }
        }),
{
    let text = trimmed(command);
    assert forall|i: int| 0 <= i < text.len() implies (#[trigger] text[i]) as u32 >= 32 || text[i]
        == '\t' || text[i] == '\n' by {
        assert(!is_control(text[i]));
    }
    let found = commands_of(text, policy.wrappers@, builtin_registry());
    if let Ok(all) = found {
        let names = Seq::new(all.len(), |i: int| all[i].name);
        unknowable_is_first(names, 0);
        assert forall|k: int| 0 <= k < all.len() implies !crate::shell::has_expansion(
            (#[trigger] all[k]).name,
        ) by {
            assert(names[k] == all[k].name);
        }
        assert forall|k: int|
            0 <= k < all.len() && (#[trigger] all[k]).inner != InnerExtraction::Transparent implies verdict(
            all[k],
            pane_before(all, k, pane, policy.rules),
            policy.rules,
        ).0 == Decision::Allow by {
            verdict_is_most_restrictive(all, all.len() as int, k, pane, policy.rules);
        }
    }
}

/// The first name that is an expansion is one, and none before it is.
proof fn unknowable_is_first(names: Seq<Seq<char>>, i: int)
    requires
        0 <= i <= names.len(),
    ensures
        ({
            let k = first_unknowable(names, i);
            &&& i <= k <= names.len()
            &&& k < names.len() ==> crate::shell::has_expansion(names[k])
            &&& forall|j: int| i <= j < k ==> !crate::shell::has_expansion(#[trigger] names[j])
        }),
    decreases names.len() - i,
{
    if i < names.len() && !crate::shell::has_expansion(names[i]) {
        unknowable_is_first(names, i + 1);
    }
}

/// What cannot be judged is denied: a line that does not parse, one with a
/// control character, and one with a command whose name is an expansion. A line
/// without commands is asked about.
pub proof fn what_cannot_be_judged_is_denied(
    command: Seq<char>,
    pane: PaneModel,
    policy: CompiledPolicy,
)
    ensures
        ({
            let text = trimmed(command);
            let found = commands_of(text, policy.wrappers@, builtin_registry());
            let decision = policy_of(command, pane, policy).0;
            &&& found is Err ==> decision == Decision::Deny
            &&& (exists|i: int|
                0 <= i < text.len() && ((#[trigger] text[i]) as u32) < 32 && text[i] != '\t' && text[i]
                    != '\n') ==> decision == Decision::Deny
            &&& (found matches Ok(all) && exists|k: int|
                0 <= k < all.len() && crate::shell::has_expansion((#[trigger] all[k]).name))
                ==> decision == Decision::Deny
            &&& (found matches Ok(all) && all.len() == 0) ==> decision != Decision::Allow
        }),
{
    let text = trimmed(command);
    let found = commands_of(text, policy.wrappers@, builtin_registry());
    if exists|i: int|
        0 <= i < text.len() && ((#[trigger] text[i]) as u32) < 32 && text[i] != '\t' && text[i]
            != '\n' {
        let i = choose|i: int|
            0 <= i < text.len() && ((#[trigger] text[i]) as u32) < 32 && text[i] != '\t' && text[i]
                != '\n';
        assert(is_control(text[i]));
    }
    if let Ok(all) = found {
        let names = Seq::new(all.len(), |i: int| all[i].name);
        unknowable_is_first(names, 0);
        if exists|k: int|
            0 <= k < all.len() && crate::shell::has_expansion((#[trigger] all[k]).name) {
            let k = choose|k: int|
                0 <= k < all.len() && crate::shell::has_expansion((#[trigger] all[k]).name);
            assert(names[k] == all[k].name);
        }
    }
}

/// The decision on commands that can be judged is that of the rules on one of
/// them, and a denial of any is a denial of all. Where all are left to their
/// inner commands, the default decides.
pub proof fn decision_is_of_a_command(all: Seq<CommandModel>, pane: PaneModel, set: RuleSet)
    requires
        all.len() > 0,
        forall|k: int| 0 <= k < all.len() ==> !crate::shell::has_expansion((#[trigger] all[k]).name),
    ensures
        ({
            let decision = policy_on(Ok(all), pane, set).0;
            &&& (exists|k: int|
                0 <= k < all.len() && (#[trigger] all[k]).inner != InnerExtraction::Transparent)
                ==> exists|k: int|
                0 <= k < all.len() && (#[trigger] all[k]).inner != InnerExtraction::Transparent
                    && verdict(all[k], pane_before(all, k, pane, set), set).0 == decision
            &&& forall|k: int|
                0 <= k < all.len() && (#[trigger] all[k]).inner != InnerExtraction::Transparent
                    && verdict(all[k], pane_before(all, k, pane, set), set).0 == Decision::Deny
                    ==> decision == Decision::Deny
            &&& (forall|k: int|
                0 <= k < all.len() ==> (#[trigger] all[k]).inner == InnerExtraction::Transparent)
                ==> decision == set.default
        }),
{
    let names = Seq::new(all.len(), |i: int| all[i].name);
    unknowable_is_first(names, 0);
    let n = first_unknowable(names, 0);
    if n < names.len() {
        assert(names[n] == all[n].name);
    }
    verdict_has_a_cause(all, all.len() as int, pane, set);
    assert forall|k: int|
        0 <= k < all.len() && (#[trigger] all[k]).inner != InnerExtraction::Transparent && verdict(
            all[k],
            pane_before(all, k, pane, set),
            set,
        ).0 == Decision::Deny implies policy_on(Ok(all), pane, set).0 == Decision::Deny by {
        verdict_is_most_restrictive(all, all.len() as int, k, pane, set);
    }
}

/// A directory that a rule captures is the one that the commands after it are
/// judged in, and what those say of `pane.cwd`.
pub proof fn captured_directory_is_seen(
    commands: Seq<CommandModel>,
    n: int,
    i: int,
    dir: Seq<char>,
    pane: PaneModel,
    set: RuleSet,
)
    requires
        0 <= n < commands.len(),
        commands[n].inner != InnerExtraction::Transparent,
        ({
            let here = pane_before(commands, n, pane, set);
            let ctx = self::rules::context_of(
                commands[n],
                here,
                crate::text::texts(set.project_dirs@),
            );
            &&& 0 <= i < set.rules@.len()
            &&& self::rules::applies(set.rules@[i], commands[n], here, ctx)
            &&& forall|j: int|
                0 <= j < i ==> !self::rules::applies(
                    #[trigger] set.rules@[j],
                    commands[n],
                    here,
                    ctx,
                )
            &&& set.rules@[i].capture_cwd matches Some(e) && self::rules::eval(e, ctx)
                == self::value::Tri::Text(dir)
        }),
        !crate::shell::has_expansion(dir),
    ensures
        pane_before(commands, n + 1, pane, set).moved == EffectiveModel::Known(dir),
        self::rules::pane_value(
            pane_before(commands, n + 1, pane, set),
            crate::text::texts(set.project_dirs@),
        ) matches self::value::Tri::Object(m) && m.dom().contains("cwd"@) && m["cwd"@]
            == self::value::Tri::Text(dir),
{
    let here = pane_before(commands, n, pane, set);
    let ctx = self::rules::context_of(commands[n], here, crate::text::texts(set.project_dirs@));
    self::rules::first_applying_is_first(set.rules@, 0, commands[n], here, ctx);
    let k = self::rules::first_applying(set.rules@, 0, commands[n], here, ctx);
    if k < i {
        assert(!self::rules::applies(set.rules@[k], commands[n], here, ctx));
    }
    assert(k == i);
    reveal_strlit("cwd");
    reveal_strlit("foreground");
    reveal_strlit("user");
    reveal_strlit("project_dirs");
    assert("cwd"@.len() == 3 && "foreground"@.len() == 10 && "user"@.len() == 4
        && "project_dirs"@.len() == 12);
}

} // verus!
