//! Structural checks: minimal and not overridable.
//!
//! A command whose name is an expansion cannot be matched by any rule, so it is
//! denied. Everything else is policy.

use super::parse::CommandInfo;
use super::{Decision, PolicyResult};
use crate::shell::{has_expansion, word_has_expansion};
use vstd::prelude::*;
use vstd::string::StringExecFns;

verus! {

/// The first command at or after `i` whose name is an expansion; the number of
/// commands where there is none.
pub open spec fn first_unknowable(names: Seq<Seq<char>>, i: int) -> int
    decreases names.len() - i,
{
    if i < 0 || i >= names.len() {
        names.len() as int
    } else if has_expansion(names[i]) {
        i
    } else {
        first_unknowable(names, i + 1)
    }
}

/// The names of commands.
pub open spec fn names_of(commands: Seq<CommandInfo>) -> Seq<Seq<char>> {
    Seq::new(commands.len(), |i: int| commands[i].name@)
}

/// Deny the first command whose name is an expansion.
pub fn check(commands: &[CommandInfo]) -> (r: Option<PolicyResult>)
    ensures
        ({
            let names = names_of(commands@);
            let i = first_unknowable(names, 0);
            match r {
                Some(p) => i < names.len() && p.decision == Decision::Deny && p.rule@
                    == "structural:unknowable_command (name: "@ + names[i] + ")"@,
                None => i == names.len(),
            }
        }),
{
    let ghost names = names_of(commands@);
    let mut i: usize = 0;
    while i < commands.len()
        invariant
            i <= commands@.len(),
            names == names_of(commands@),
            first_unknowable(names, 0) == first_unknowable(names, i as int),
        decreases commands@.len() - i,
    {
        assert(names[i as int] == commands@[i as int].name@);
        if word_has_expansion(commands[i].name.as_str()) {
            let mut rule = "structural:unknowable_command (name: ".to_owned();
            rule.append(commands[i].name.as_str());
            rule.append(")");
            return Some(PolicyResult { decision: Decision::Deny, rule });
        }
        i = i + 1;
    }
    None
}

/// A command line is denied here exactly where the name of one of its commands is
/// an expansion, and the command that is told is such a one.
pub proof fn every_name_is_checked(names: Seq<Seq<char>>, from: int)
    requires
        0 <= from <= names.len(),
    ensures
        first_unknowable(names, from) < names.len() <==> exists|i: int|
            from <= i < names.len() && has_expansion(#[trigger] names[i]),
        first_unknowable(names, from) < names.len() ==> from <= first_unknowable(names, from)
            && has_expansion(names[first_unknowable(names, from)]),
    decreases names.len() - from,
{
    if from < names.len() {
        every_name_is_checked(names, from + 1);
        if has_expansion(names[from]) {
            assert(first_unknowable(names, from) == from);
        } else if exists|i: int| from <= i < names.len() && has_expansion(#[trigger] names[i]) {
            let i = choose|i: int| from <= i < names.len() && has_expansion(#[trigger] names[i]);
            assert(from + 1 <= i && has_expansion(names[i]));
        }
    }
}

} // verus!
