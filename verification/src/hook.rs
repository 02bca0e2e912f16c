//! The policy hook: what is answered before a tool is used.

use crate::mcp::{flat, flat_push, parts_are_told, tells};
use crate::text::str_eq;
use vstd::prelude::*;
use vstd::string::StringExecFns;

verus! {

/// What the daemon said about a command.
#[derive(Debug, Clone, PartialEq, Eq)]
pub struct Judgement {
    pub result: Option<String>,
    pub rule: Option<String>,
    pub message: Option<String>,
    pub hostname: Option<String>,
    pub cwd: Option<String>,
    pub user: Option<String>,
    pub foreground: Option<String>,
}

/// What the hook answers.
#[derive(Debug, Clone, PartialEq, Eq)]
pub enum HookAnswer {
    /// The tool may be used.
    Allow,
    /// It may not; the reason is told to the model.
    Deny { reason: String },
    /// It may not; the hook fails with the reason.
    Block { reason: String },
    /// Someone is asked, with that reason.
    Ask { reason: String },
}

/// What the hook answers, mathematically.
pub ghost enum AnswerModel {
    Allow,
    Deny(Seq<char>),
    Block(Seq<char>),
    Ask(Seq<char>),
}

impl View for HookAnswer {
    type V = AnswerModel;

    open spec fn view(&self) -> AnswerModel {
        match *self {
            HookAnswer::Allow => AnswerModel::Allow,
            HookAnswer::Deny { reason } => AnswerModel::Deny(reason@),
            HookAnswer::Block { reason } => AnswerModel::Block(reason@),
            HookAnswer::Ask { reason } => AnswerModel::Ask(reason@),
        }
    }
}

/// A text, or another where there is none.
pub open spec fn text_or(s: Option<String>, other: Seq<char>) -> Seq<char> {
    match s {
        Some(t) => t@,
        None => other,
    }
}

/// A text, or another where there is none.
fn or_text(s: &Option<String>, other: &str) -> (r: String)
    ensures
        r@ == text_or(*s, other@),
{
    match s {
        Some(t) => t.as_str().to_owned(),
        None => other.to_owned(),
    }
}

/// Whether the policy has to be asked: a request without a pane or a command is
/// left to the daemon to refuse.
pub fn needs_judgement(pane_id: &str, command: &str) -> (r: bool)
    ensures
        r == (pane_id@.len() > 0 && command@.len() > 0),
{
    !pane_id.is_empty() && !command.is_empty()
}

/// What the hook answers on what the daemon said.
pub open spec fn answer_to(pane_id: Seq<char>, command: Seq<char>, j: Judgement) -> AnswerModel {
    let result = text_or(j.result, "ask"@);
    let rule = text_or(j.rule, ""@);
    let host = text_or(j.hostname, "local"@);
    let cwd = text_or(j.cwd, "?"@);
    if result == "allow"@ {
        AnswerModel::Allow
    } else if result == "lint"@ {
        AnswerModel::Deny(text_or(j.message, "lint error"@))
    } else if result == "deny"@ {
        AnswerModel::Block(
            "Policy denied: "@ + command + "\n  pane "@ + pane_id + "  host: "@ + host + "  cwd: "@
                + cwd + "  rule: "@ + rule,
        )
    } else {
        AnswerModel::Ask(
            command + "\n  pane "@ + pane_id + "  user: "@ + text_or(j.user, "?"@) + "  host: "@
                + host + "  cwd: "@ + cwd + "  shell: "@ + text_or(j.foreground, "?"@)
                + "  rule: "@ + rule,
        )
    }
}

/// What the hook answers on what the daemon said.
pub fn hook_answer(pane_id: &str, command: &str, j: &Judgement) -> (r: HookAnswer)
    ensures
        r@ == answer_to(pane_id@, command@, *j),
{
    let result = or_text(&j.result, "ask");
    let rule = or_text(&j.rule, "");
    let host = or_text(&j.hostname, "local");
    let cwd = or_text(&j.cwd, "?");
    if str_eq(result.as_str(), "allow") {
        return HookAnswer::Allow;
    }
    if str_eq(result.as_str(), "lint") {
        return HookAnswer::Deny { reason: or_text(&j.message, "lint error") };
    }
    if str_eq(result.as_str(), "deny") {
        let mut reason = "Policy denied: ".to_owned();
        reason.append(command);
        reason.append("\n  pane ");
        reason.append(pane_id);
        reason.append("  host: ");
        reason.append(host.as_str());
        reason.append("  cwd: ");
        reason.append(cwd.as_str());
        reason.append("  rule: ");
        reason.append(rule.as_str());
        return HookAnswer::Block { reason };
    }
    let user = or_text(&j.user, "?");
    let shell = or_text(&j.foreground, "?");
    let mut reason = command.to_owned();
    reason.append("\n  pane ");
    reason.append(pane_id);
    reason.append("  user: ");
    reason.append(user.as_str());
    reason.append("  host: ");
    reason.append(host.as_str());
    reason.append("  cwd: ");
    reason.append(cwd.as_str());
    reason.append("  shell: ");
    reason.append(shell.as_str());
    reason.append("  rule: ");
    reason.append(rule.as_str());
    HookAnswer::Ask { reason }
}

/// A command is let through without a question only where the daemon allows it.
pub proof fn only_allow_lets_through(pane_id: Seq<char>, command: Seq<char>, j: Judgement)
    ensures
        answer_to(pane_id, command, j) is Allow <==> text_or(j.result, "ask"@) == "allow"@,
{
}

/// What the daemon denies is blocked, what the lints reject is denied with their
/// message, and about everything else but what is allowed the user is asked.
pub proof fn answers_follow_the_daemon(
    pane_id: Seq<char>,
    command: Seq<char>,
    j: Judgement,
    result: Seq<char>,
)
    requires
        j.result matches Some(r) && r@ == result,
    ensures
        result == "allow"@ ==> answer_to(pane_id, command, j) is Allow,
        result == "deny"@ ==> answer_to(pane_id, command, j) is Block,
        result == "lint"@ && j.message is Some ==> answer_to(pane_id, command, j)
            == AnswerModel::Deny((j.message->0)@),
        result != "allow"@ && result != "deny"@ && result != "lint"@ ==> (answer_to(
            pane_id,
            command,
            j,
        ) matches AnswerModel::Ask(reason) && command.len() <= reason.len() && reason.subrange(
            0,
            command.len() as int,
        ) == command),
{
    reveal_strlit("allow");
    reveal_strlit("deny");
    reveal_strlit("lint");
    assert("allow"@.len() == 5 && "deny"@.len() == 4 && "lint"@.len() == 4 && "deny"@[0] == 'd'
        && "lint"@[0] == 'l');
    if let AnswerModel::Ask(reason) = answer_to(pane_id, command, j) {
        assert(reason.subrange(0, command.len() as int) =~= command);
    }
}

/// Where the daemon says nothing, the user is asked.
pub proof fn silence_is_a_question(pane_id: Seq<char>, command: Seq<char>, j: Judgement)
    requires
        j.result is None,
    ensures
        answer_to(pane_id, command, j) is Ask,
{
    reveal_strlit("ask");
    reveal_strlit("allow");
    reveal_strlit("deny");
    reveal_strlit("lint");
    assert("ask"@.len() == 3 && "allow"@.len() == 5 && "deny"@.len() == 4 && "lint"@.len() == 4);
}

/// What the user is asked, and what is blocked, is told with the command, the pane,
/// the host, the directory and the rule; a question also names user and shell.
pub proof fn reasons_tell_the_circumstances(
    pane_id: Seq<char>,
    command: Seq<char>,
    j: Judgement,
    reason: Seq<char>,
)
    requires
        answer_to(pane_id, command, j) == AnswerModel::Block(reason) || answer_to(
            pane_id,
            command,
            j,
        ) == AnswerModel::Ask(reason),
    ensures
        tells(reason, command),
        tells(reason, pane_id),
        j.hostname matches Some(s) ==> tells(reason, s@),
        j.cwd matches Some(s) ==> tells(reason, s@),
        j.rule matches Some(s) ==> tells(reason, s@),
        answer_to(pane_id, command, j) is Ask ==> (j.user matches Some(s) ==> tells(reason, s@)),
        answer_to(pane_id, command, j) is Ask ==> (j.foreground matches Some(s) ==> tells(
            reason,
            s@,
        )),
{
    let none = Seq::<Seq<char>>::empty();
    let host = text_or(j.hostname, "local"@);
    let cwd = text_or(j.cwd, "?"@);
    let rule = text_or(j.rule, ""@);
    let user = text_or(j.user, "?"@);
    let shell = text_or(j.foreground, "?"@);
    if answer_to(pane_id, command, j) is Block {
        let p0 = none.push("Policy denied: "@);
        flat_push(none, "Policy denied: "@);
        let p1 = p0.push(command);
        flat_push(p0, command);
        let p2 = p1.push("\n  pane "@);
        flat_push(p1, "\n  pane "@);
        let p3 = p2.push(pane_id);
        flat_push(p2, pane_id);
        let p4 = p3.push("  host: "@);
        flat_push(p3, "  host: "@);
        let p5 = p4.push(host);
        flat_push(p4, host);
        let p6 = p5.push("  cwd: "@);
        flat_push(p5, "  cwd: "@);
        let p7 = p6.push(cwd);
        flat_push(p6, cwd);
        let p8 = p7.push("  rule: "@);
        flat_push(p7, "  rule: "@);
        let p9 = p8.push(rule);
        flat_push(p8, rule);
        assert(flat(p0) =~= "Policy denied: "@);
        assert(reason == flat(p9));
        parts_are_told(p9, 1);
        parts_are_told(p9, 3);
        parts_are_told(p9, 5);
        parts_are_told(p9, 7);
        parts_are_told(p9, 9);
    } else {
        let p0 = none.push(command);
        flat_push(none, command);
        let p1 = p0.push("\n  pane "@);
        flat_push(p0, "\n  pane "@);
        let p2 = p1.push(pane_id);
        flat_push(p1, pane_id);
        let p3 = p2.push("  user: "@);
        flat_push(p2, "  user: "@);
        let p4 = p3.push(user);
        flat_push(p3, user);
        let p5 = p4.push("  host: "@);
        flat_push(p4, "  host: "@);
        let p6 = p5.push(host);
        flat_push(p5, host);
        let p7 = p6.push("  cwd: "@);
        flat_push(p6, "  cwd: "@);
        let p8 = p7.push(cwd);
        flat_push(p7, cwd);
        let p9 = p8.push("  shell: "@);
        flat_push(p8, "  shell: "@);
        let p10 = p9.push(shell);
        flat_push(p9, shell);
        let p11 = p10.push("  rule: "@);
        flat_push(p10, "  rule: "@);
        let p12 = p11.push(rule);
        flat_push(p11, rule);
        assert(flat(p0) =~= command);
        assert(reason == flat(p12));
        parts_are_told(p12, 0);
        parts_are_told(p12, 2);
        parts_are_told(p12, 4);
        parts_are_told(p12, 6);
        parts_are_told(p12, 8);
        parts_are_told(p12, 10);
        parts_are_told(p12, 12);
    }
}

} // verus!
