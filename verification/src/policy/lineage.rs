//! Which commands of a script are found, and what they pass on: every command
//! that stands in the syntax tree is judged, and user and host go down a chain of
//! wrappers.

use super::args::parsed;
use super::builtins::{list_texts, lookup};
use super::parse::{
    adopted, blocks_extraction, cases_commands, chain_commands, compound_commands, elses_commands,
    entries_commands, extraction, inner_command, inherited_from, items_commands, items_of,
    links_commands, list_commands, lists_commands, optional_items_commands,
    pieces_commands, pipeline_commands, script_commands, simple_commands, text_commands,
    wrapped_commands, wrapper_context, wrapper_index, words_of, file_redirects, redirect_of,
    written_command, commands_of, CommandModel, EffectiveModel, Extraction, InnerExtraction,
    RedirectModel,
};
use super::rules::{eval, verdict, RuleSet};
use super::value::{truth, Tri, TriBool};
use super::wrappers::WrapperModel;
use super::{
    only_the_directory_is_captured, pane_before, policy_on, rank, verdict_is_most_restrictive,
    Decision, PaneModel,
};
use crate::shell::{
    has_expansion, parsed_word, script_of, unquoted, Chain, ChainLink, CommandKind, CommandList,
    CommandPart, CompoundForm, ElsePart, ListEntry, PlainCommand, RedirectKind, RedirectTarget,
    Redirection, Script, ShellCommand, WordPart,
};
use vstd::prelude::*;

verus! {

/// Whether a simple command stands in a list, at any depth. `piped` says whether
/// it receives piped input there.
pub open spec fn in_list(p: PlainCommand, piped: bool, list: CommandList) -> bool
    decreases list,
{
    exists|i: int|
        0 <= i < list.items@.len() && in_chain(p, piped, (#[trigger] list.items@[i]).chain)
}

/// Whether a simple command stands in a chain: in its first pipeline, or in one
/// after `&&` or `||`.
pub open spec fn in_chain(p: PlainCommand, piped: bool, chain: Chain) -> bool
    decreases chain,
{
    in_pipeline(p, piped, chain.first.seq) || exists|i: int|
        0 <= i < chain.additional@.len() && in_pipeline(
            p,
            piped,
            (#[trigger] chain.additional@[i]).pipeline.seq,
        )
}

/// Whether a simple command stands in a pipeline. All but its first command
/// receive piped input.
pub open spec fn in_pipeline(p: PlainCommand, piped: bool, seq: Vec<ShellCommand>) -> bool
    decreases seq,
{
    exists|i: int|
        0 <= i < seq@.len() && (match (#[trigger] seq@[i]).kind {
            CommandKind::Simple(c) => (p == c && piped == (i > 0)) || (c.word_or_name is Some && (
            in_parts(p, piped, c.suffix) || in_parts(p, piped, c.prefix))),
            CommandKind::Compound(form) => in_compound(p, piped, form),
            _ => false,
        })
}

/// Whether a simple command stands in a process substitution among what is
/// written before or after a command's name.
pub open spec fn in_parts(p: PlainCommand, piped: bool, items: Option<Vec<CommandPart>>) -> bool
    decreases items,
{
    match items {
        Some(v) => exists|i: int|
            0 <= i < v@.len() && (match #[trigger] v@[i] {
                CommandPart::ProcessSubstitution(list) => in_list(p, piped, list),
                _ => false,
            }),
        None => false,
    }
}

/// Whether a simple command stands in a compound one: in a condition, in a body,
/// in a case, in a group or in a subshell.
pub open spec fn in_compound(p: PlainCommand, piped: bool, form: CompoundForm) -> bool
    decreases form,
{
    match form {
        CompoundForm::Arithmetic => false,
        CompoundForm::ArithmeticFor(body) => in_list(p, piped, body),
        CompoundForm::BraceGroup(body) => in_list(p, piped, body),
        CompoundForm::Subshell(body) => in_list(p, piped, body),
        CompoundForm::For(body) => in_list(p, piped, body),
        CompoundForm::Case(cases) => exists|i: int|
            0 <= i < cases@.len() && (match #[trigger] cases@[i] {
                Some(body) => in_list(p, piped, body),
                None => false,
            }),
        CompoundForm::If { condition, body, elses } => in_list(p, piped, condition) || in_list(
            p,
            piped,
            body,
        ) || (match elses {
            Some(v) => exists|i: int| 0 <= i < v@.len() && in_else(p, piped, #[trigger] v@[i]),
            None => false,
        }),
        CompoundForm::While { condition, body } => in_list(p, piped, condition) || in_list(
            p,
            piped,
            body,
        ),
        CompoundForm::Until { condition, body } => in_list(p, piped, condition) || in_list(
            p,
            piped,
            body,
        ),
    }
}

/// Whether a simple command stands in an else part.
pub open spec fn in_else(p: PlainCommand, piped: bool, part: ElsePart) -> bool
    decreases part,
{
    in_list(p, piped, part.body) || (match part.condition {
        Some(condition) => in_list(p, piped, condition),
        None => false,
    })
}

/// Whether a simple command stands anywhere in a script.
pub open spec fn in_script(p: PlainCommand, piped: bool, script: Script) -> bool {
    exists|i: int| 0 <= i < script.lists@.len() && in_list(p, piped, #[trigger] script.lists@[i])
}

/// The word that an item is.
pub open spec fn word_text(item: CommandPart) -> Seq<char> {
    match item {
        CommandPart::Word(w) => w@,
        _ => Seq::empty(),
    }
}

/// Whether nothing among items can add arguments that are not known: no word
/// with an expansion, and no process substitution.
pub open spec fn is_literal(items: Seq<CommandPart>) -> bool {
    forall|i: int|
        0 <= i < items.len() ==> (match #[trigger] items[i] {
            CommandPart::Word(w) => !has_expansion(w@),
            CommandPart::ProcessSubstitution(_) => false,
            _ => true,
        })
}

/// Whether a redirect is what an item writes or reads: a file that is named.
pub open spec fn is_redirect_of(r: RedirectModel, item: CommandPart) -> bool {
    match item {
        CommandPart::Redirect(Redirection::File { kind, target: RedirectTarget::Filename(w) }) => {
            &&& r.target == w@
            &&& r.has_expansion == has_expansion(w@)
            &&& r.is_write <==> kind == RedirectKind::Write || kind == RedirectKind::Append || kind
                == RedirectKind::Clobber || kind == RedirectKind::ReadAndWrite
        },
        CommandPart::Redirect(Redirection::OutputAndError(w)) => {
            &&& r.target == w@
            &&& r.has_expansion == has_expansion(w@)
            &&& r.is_write
        },
        _ => false,
    }
}

/// Whether an item names a file to write to or read from.
pub open spec fn names_file(item: CommandPart) -> bool {
    match item {
        CommandPart::Redirect(Redirection::File { target: RedirectTarget::Filename(_), .. }) => true,
        CommandPart::Redirect(Redirection::OutputAndError(_)) => true,
        _ => false,
    }
}

/// Whether redirects are those of items: each file that is named, and no others.
pub open spec fn are_redirects_of(redirects: Seq<RedirectModel>, items: Seq<CommandPart>) -> bool {
    &&& redirects.len() == items.filter(|item: CommandPart| names_file(item)).len()
    &&& forall|k: int|
        0 <= k < redirects.len() ==> is_redirect_of(
            #[trigger] redirects[k],
            items.filter(|item: CommandPart| names_file(item))[k],
        )
}

/// Whether a command that was found is the simple command `p`, as it is written:
/// its name, its words, its redirects, and whether it receives piped input.
pub open spec fn is_entry(c: CommandModel, p: PlainCommand, piped: bool) -> bool {
    &&& p.word_or_name matches Some(name) && c.name == name@ && (c.args_complete <==> !has_expansion(
        name@,
    ) && is_literal(items_of(p.prefix)) && is_literal(items_of(p.suffix)))
    &&& c.args == items_of(p.suffix).filter(|item: CommandPart| item is Word).map_values(
        |item: CommandPart| word_text(item),
    )
    &&& are_redirects_of(c.redirects, items_of(p.prefix) + items_of(p.suffix))
    &&& c.is_pipe_target == piped
    &&& c.effective_user is Unchanged && c.effective_host is Unchanged && c.effective_cwd is Unchanged
    &&& c.parent is None
}

/// Whether the simple command `p` is among commands that were found.
pub open spec fn is_found(commands: Seq<CommandModel>, p: PlainCommand, piped: bool) -> bool {
    exists|k: int| 0 <= k < commands.len() && is_entry(#[trigger] commands[k], p, piped)
}

/// What is found in one of two parts is found in both together.
proof fn found_in_part(a: Seq<CommandModel>, b: Seq<CommandModel>, p: PlainCommand, piped: bool)
    requires
        is_found(a, p, piped) || is_found(b, p, piped),
    ensures
        is_found(a + b, p, piped),
{
    if is_found(a, p, piped) {
        let k = choose|k: int| 0 <= k < a.len() && is_entry(#[trigger] a[k], p, piped);
        assert((a + b)[k] == a[k]);
    } else {
        let k = choose|k: int| 0 <= k < b.len() && is_entry(#[trigger] b[k], p, piped);
        assert((a + b)[a.len() + k] == b[k]);
    }
}

/// The words of a command are those among its items.
proof fn words_are_filtered(items: Seq<CommandPart>)
    ensures
        words_of(items) == items.filter(|item: CommandPart| item is Word).map_values(
            |item: CommandPart| word_text(item),
        ),
    decreases items.len(),
{
    reveal(Seq::filter);
    let test = |item: CommandPart| item is Word;
    let text = |item: CommandPart| word_text(item);
    if items.len() > 0 {
        words_are_filtered(items.drop_last());
        let before = items.drop_last().filter(test);
        if items.last() is Word {
            assert(before.push(items.last()).map_values(text) =~= before.map_values(text).push(
                word_text(items.last()),
            ));
        }
    } else {
        assert(items.filter(test).map_values(text) =~= words_of(items));
    }
}

/// The redirects of a command are those among its items.
proof fn redirects_are_filtered(items: Seq<CommandPart>)
    ensures
        are_redirects_of(file_redirects(items), items),
    decreases items.len(),
{
    reveal(Seq::filter);
    let test = |item: CommandPart| names_file(item);
    if items.len() > 0 {
        let front = items.drop_last();
        redirects_are_filtered(front);
        let last = items.last();
        assert(names_file(last) <==> (last matches CommandPart::Redirect(r) && redirect_of(r) is Some));
        let before = file_redirects(front);
        let now = file_redirects(items);
        if names_file(last) {
            let m = redirect_of(last->Redirect_0)->0;
            assert(is_redirect_of(m, last));
            assert(items.filter(test) == front.filter(test).push(last));
            assert forall|k: int| 0 <= k < now.len() implies is_redirect_of(
                #[trigger] now[k],
                items.filter(test)[k],
            ) by {
                if k < before.len() {
                    assert(now[k] == before[k]);
                    assert(items.filter(test)[k] == front.filter(test)[k]);
                }
            }
        }
    }
}

/// Redirects of two parts are those of the whole.
proof fn redirects_of_parts(a: Seq<CommandPart>, b: Seq<CommandPart>)
    ensures
        are_redirects_of(file_redirects(a) + file_redirects(b), a + b),
{
    let test = |item: CommandPart| names_file(item);
    redirects_are_filtered(a);
    redirects_are_filtered(b);
    Seq::filter_distributes_over_add(a, b, test);
    let all = file_redirects(a) + file_redirects(b);
    assert forall|k: int| 0 <= k < all.len() implies is_redirect_of(
        #[trigger] all[k],
        (a + b).filter(test)[k],
    ) by {
        let n = file_redirects(a).len();
        if k < n {
            assert(all[k] == file_redirects(a)[k]);
            assert((a + b).filter(test)[k] == a.filter(test)[k]);
        } else {
            assert(all[k] == file_redirects(b)[k - n]);
            assert((a + b).filter(test)[k] == b.filter(test)[k - n]);
        }
    }
}

/// A command as it is written is its own entry, whatever becomes of it as a
/// wrapper.
proof fn written_is_entry(p: PlainCommand, piped: bool, inner: InnerExtraction, getopt: Option<Tri>)
    requires
        p.word_or_name is Some,
    ensures
        is_entry(
            (CommandModel { inner, getopt, ..written_command(p, (p.word_or_name->0)@, piped) }),
            p,
            piped,
        ),
{
    words_are_filtered(items_of(p.suffix));
    redirects_of_parts(items_of(p.prefix), items_of(p.suffix));
    let prefix = items_of(p.prefix);
    let suffix = items_of(p.suffix);
    assert forall|items: Seq<CommandPart>| is_literal(items) == super::parse::is_closed(items) by {
        if is_literal(items) {
            assert forall|i: int| 0 <= i < items.len() implies !super::parse::is_open_ended(
                #[trigger] items[i],
            ) by {}
        }
        if super::parse::is_closed(items) {
            assert forall|i: int| 0 <= i < items.len() implies (match #[trigger] items[i] {
                CommandPart::Word(w) => !has_expansion(w@),
                CommandPart::ProcessSubstitution(_) => false,
                _ => true,
            }) by {
                assert(!super::parse::is_open_ended(items[i]));
            }
        }
    }
}

/// What is found in an entry of a list is found in the list.
proof fn entry_in_list(
    p: PlainCommand,
    piped: bool,
    entries: Vec<ListEntry>,
    i: int,
    n: nat,
    reg: Seq<WrapperModel>,
    base: Seq<WrapperModel>,
    depth: nat,
)
    requires
        0 <= i < n <= entries@.len(),
        is_found(chain_commands(entries@[i].chain, reg, base, depth), p, piped),
    ensures
        is_found(entries_commands(entries, n, reg, base, depth), p, piped),
    decreases n,
{
    if i < n - 1 {
        entry_in_list(p, piped, entries, i, (n - 1) as nat, reg, base, depth);
    }
    found_in_part(
        entries_commands(entries, (n - 1) as nat, reg, base, depth),
        chain_commands(entries@[n - 1].chain, reg, base, depth),
        p,
        piped,
    );
}

/// What is found in a further pipeline of a chain is found in the chain.
proof fn link_in_chain(
    p: PlainCommand,
    piped: bool,
    links: Vec<ChainLink>,
    i: int,
    n: nat,
    reg: Seq<WrapperModel>,
    base: Seq<WrapperModel>,
    depth: nat,
)
    requires
        0 <= i < n <= links@.len(),
        ({
            let s = links@[i].pipeline.seq;
            is_found(pipeline_commands(s, s@.len(), reg, base, depth), p, piped)
        }),
    ensures
        is_found(links_commands(links, n, reg, base, depth), p, piped),
    decreases n,
{
    if i < n - 1 {
        link_in_chain(p, piped, links, i, (n - 1) as nat, reg, base, depth);
    }
    let s = links@[n - 1].pipeline.seq;
    found_in_part(
        links_commands(links, (n - 1) as nat, reg, base, depth),
        pipeline_commands(s, s@.len(), reg, base, depth),
        p,
        piped,
    );
}

/// The commands of one segment of a pipeline.
spec fn segment_commands(
    seq: Vec<ShellCommand>,
    i: int,
    reg: Seq<WrapperModel>,
    base: Seq<WrapperModel>,
    depth: nat,
) -> Seq<CommandModel> {
    match seq@[i].kind {
        CommandKind::Simple(c) => simple_commands(c, i > 0, reg, base, depth),
        CommandKind::Compound(c) => compound_commands(c, reg, base, depth),
        CommandKind::Function => Seq::empty(),
        CommandKind::ExtendedTest => Seq::empty(),
    }
}

/// What is found in a segment of a pipeline is found in the pipeline.
proof fn segment_in_pipeline(
    p: PlainCommand,
    piped: bool,
    seq: Vec<ShellCommand>,
    i: int,
    n: nat,
    reg: Seq<WrapperModel>,
    base: Seq<WrapperModel>,
    depth: nat,
)
    requires
        0 <= i < n <= seq@.len(),
        is_found(segment_commands(seq, i, reg, base, depth), p, piped),
    ensures
        is_found(pipeline_commands(seq, n, reg, base, depth), p, piped),
    decreases n,
{
    if i < n - 1 {
        segment_in_pipeline(p, piped, seq, i, (n - 1) as nat, reg, base, depth);
    }
    found_in_part(
        pipeline_commands(seq, (n - 1) as nat, reg, base, depth),
        segment_commands(seq, n - 1, reg, base, depth),
        p,
        piped,
    );
}

/// What is found in a case is found in the cases.
proof fn case_in_cases(
    p: PlainCommand,
    piped: bool,
    cases: Vec<Option<CommandList>>,
    i: int,
    n: nat,
    reg: Seq<WrapperModel>,
    base: Seq<WrapperModel>,
    depth: nat,
)
    requires
        0 <= i < n <= cases@.len(),
        cases@[i] is Some,
        is_found(list_commands(cases@[i]->0, reg, base, depth), p, piped),
    ensures
        is_found(cases_commands(cases, n, reg, base, depth), p, piped),
    decreases n,
{
    if i < n - 1 {
        case_in_cases(p, piped, cases, i, (n - 1) as nat, reg, base, depth);
    }
    found_in_part(
        cases_commands(cases, (n - 1) as nat, reg, base, depth),
        match cases@[n - 1] {
            Some(list) => list_commands(list, reg, base, depth),
            None => Seq::empty(),
        },
        p,
        piped,
    );
}

/// What is found in an else part is found in the else parts.
proof fn else_in_elses(
    p: PlainCommand,
    piped: bool,
    elses: Vec<ElsePart>,
    i: int,
    n: nat,
    reg: Seq<WrapperModel>,
    base: Seq<WrapperModel>,
    depth: nat,
)
    requires
        0 <= i < n <= elses@.len(),
        is_found(list_commands(elses@[i].body, reg, base, depth), p, piped) || (
        elses@[i].condition is Some && is_found(
            list_commands(elses@[i].condition->0, reg, base, depth),
            p,
            piped,
        )),
    ensures
        is_found(elses_commands(elses, n, reg, base, depth), p, piped),
    decreases n,
{
    let before = elses_commands(elses, (n - 1) as nat, reg, base, depth);
    let condition = match elses@[n - 1].condition {
        Some(list) => list_commands(list, reg, base, depth),
        None => Seq::empty(),
    };
    let body = list_commands(elses@[n - 1].body, reg, base, depth);
    if i < n - 1 {
        else_in_elses(p, piped, elses, i, (n - 1) as nat, reg, base, depth);
        found_in_part(before, condition, p, piped);
    } else if !is_found(body, p, piped) {
        found_in_part(before, condition, p, piped);
    }
    found_in_part(before + condition, body, p, piped);
}

/// What is found in a process substitution is found among the items.
proof fn substitution_in_items(
    p: PlainCommand,
    piped: bool,
    items: Vec<CommandPart>,
    i: int,
    n: nat,
    reg: Seq<WrapperModel>,
    base: Seq<WrapperModel>,
    depth: nat,
)
    requires
        0 <= i < n <= items@.len(),
        items@[i] is ProcessSubstitution,
        is_found(list_commands(items@[i]->ProcessSubstitution_0, reg, base, depth), p, piped),
    ensures
        is_found(items_commands(items, n, reg, base, depth), p, piped),
    decreases n,
{
    if i < n - 1 {
        substitution_in_items(p, piped, items, i, (n - 1) as nat, reg, base, depth);
    }
    let before = items_commands(items, (n - 1) as nat, reg, base, depth);
    let all = items_commands(items, n, reg, base, depth);
    let here = all.subrange(before.len() as int, all.len() as int);
    assert(all =~= before + here);
    if i == n - 1 {
        assert(here =~= list_commands(items@[i]->ProcessSubstitution_0, reg, base, depth));
    }
    found_in_part(before, here, p, piped);
}

/// A command after those that it wraps is its own last entry.
proof fn wrapper_stays(
    c: CommandModel,
    reg: Seq<WrapperModel>,
    base: Seq<WrapperModel>,
    depth: nat,
)
    ensures
        wrapped_commands(c, reg, base, depth).len() > 0,
        ({
            let last = wrapped_commands(c, reg, base, depth).last();
            last == (CommandModel { inner: last.inner, getopt: last.getopt, ..c })
        }),
{
}

/// A simple command with a name is found where it stands.
proof fn simple_is_found(
    p: PlainCommand,
    piped: bool,
    reg: Seq<WrapperModel>,
    base: Seq<WrapperModel>,
    depth: nat,
)
    requires
        p.word_or_name is Some,
    ensures
        is_found(simple_commands(p, piped, reg, base, depth), p, piped),
{
    let c = written_command(p, (p.word_or_name->0)@, piped);
    let own = if depth == 0 {
        seq![c]
    } else {
        wrapped_commands(c, reg, base, (depth - 1) as nat)
    };
    if depth > 0 {
        wrapper_stays(c, reg, base, (depth - 1) as nat);
        assert(own[own.len() - 1] == own.last());
    }
    let last = own[own.len() - 1];
    written_is_entry(p, piped, last.inner, last.getopt);
    assert(is_entry(last, p, piped));
    let suffix = optional_items_commands(p.suffix, reg, base, depth);
    let prefix = optional_items_commands(p.prefix, reg, base, depth);
    found_in_part(own, suffix, p, piped);
    found_in_part(own + suffix, prefix, p, piped);
}

/// What stands in a process substitution of a command with a name is found.
proof fn part_is_found(
    p: PlainCommand,
    piped: bool,
    c: PlainCommand,
    after_pipe: bool,
    reg: Seq<WrapperModel>,
    base: Seq<WrapperModel>,
    depth: nat,
)
    requires
        p.word_or_name is Some,
        c.word_or_name is Some,
        in_parts(p, piped, c.suffix) || in_parts(p, piped, c.prefix),
    ensures
        is_found(simple_commands(c, after_pipe, reg, base, depth), p, piped),
    decreases c,
{
    let w = written_command(c, (c.word_or_name->0)@, after_pipe);
    let own = if depth == 0 {
        seq![w]
    } else {
        wrapped_commands(w, reg, base, (depth - 1) as nat)
    };
    let suffix = optional_items_commands(c.suffix, reg, base, depth);
    let prefix = optional_items_commands(c.prefix, reg, base, depth);
    if in_parts(p, piped, c.suffix) {
        parts_are_found(p, piped, c.suffix, reg, base, depth);
        found_in_part(own, suffix, p, piped);
    } else {
        parts_are_found(p, piped, c.prefix, reg, base, depth);
    }
    found_in_part(own + suffix, prefix, p, piped);
}

/// What stands in a process substitution is found.
proof fn parts_are_found(
    p: PlainCommand,
    piped: bool,
    items: Option<Vec<CommandPart>>,
    reg: Seq<WrapperModel>,
    base: Seq<WrapperModel>,
    depth: nat,
)
    requires
        p.word_or_name is Some,
        in_parts(p, piped, items),
    ensures
        is_found(optional_items_commands(items, reg, base, depth), p, piped),
    decreases items,
{
    let v = items->0;
    let i = choose|i: int|
        0 <= i < v@.len() && (match #[trigger] v@[i] {
            CommandPart::ProcessSubstitution(list) => in_list(p, piped, list),
            _ => false,
        });
    list_is_found(p, piped, v@[i]->ProcessSubstitution_0, reg, base, depth);
    substitution_in_items(p, piped, v, i, v@.len(), reg, base, depth);
}

/// What stands in a list is found in it.
proof fn list_is_found(
    p: PlainCommand,
    piped: bool,
    list: CommandList,
    reg: Seq<WrapperModel>,
    base: Seq<WrapperModel>,
    depth: nat,
)
    requires
        p.word_or_name is Some,
        in_list(p, piped, list),
    ensures
        is_found(list_commands(list, reg, base, depth), p, piped),
    decreases list,
{
    let i = choose|i: int|
        0 <= i < list.items@.len() && in_chain(p, piped, (#[trigger] list.items@[i]).chain);
    chain_is_found(p, piped, list.items@[i].chain, reg, base, depth);
    entry_in_list(p, piped, list.items, i, list.items@.len(), reg, base, depth);
}

/// What stands in a chain is found in it.
proof fn chain_is_found(
    p: PlainCommand,
    piped: bool,
    chain: Chain,
    reg: Seq<WrapperModel>,
    base: Seq<WrapperModel>,
    depth: nat,
)
    requires
        p.word_or_name is Some,
        in_chain(p, piped, chain),
    ensures
        is_found(chain_commands(chain, reg, base, depth), p, piped),
    decreases chain,
{
    let first = chain.first.seq;
    let links = chain.additional;
    if in_pipeline(p, piped, first) {
        pipeline_is_found(p, piped, first, reg, base, depth);
    } else {
        let i = choose|i: int|
            0 <= i < links@.len() && in_pipeline(p, piped, (#[trigger] links@[i]).pipeline.seq);
        pipeline_is_found(p, piped, links@[i].pipeline.seq, reg, base, depth);
        link_in_chain(p, piped, links, i, links@.len(), reg, base, depth);
    }
    found_in_part(
        pipeline_commands(first, first@.len(), reg, base, depth),
        links_commands(links, links@.len(), reg, base, depth),
        p,
        piped,
    );
}

/// What stands in a pipeline is found in it.
proof fn pipeline_is_found(
    p: PlainCommand,
    piped: bool,
    seq: Vec<ShellCommand>,
    reg: Seq<WrapperModel>,
    base: Seq<WrapperModel>,
    depth: nat,
)
    requires
        p.word_or_name is Some,
        in_pipeline(p, piped, seq),
    ensures
        is_found(pipeline_commands(seq, seq@.len(), reg, base, depth), p, piped),
    decreases seq,
{
    let i = choose|i: int|
        0 <= i < seq@.len() && (match (#[trigger] seq@[i]).kind {
            CommandKind::Simple(c) => (p == c && piped == (i > 0)) || (c.word_or_name is Some && (
            in_parts(p, piped, c.suffix) || in_parts(p, piped, c.prefix))),
            CommandKind::Compound(form) => in_compound(p, piped, form),
            _ => false,
        });
    match seq@[i].kind {
        CommandKind::Simple(c) => {
            if p == c && piped == (i > 0) {
                simple_is_found(p, piped, reg, base, depth);
            } else {
                part_is_found(p, piped, c, i > 0, reg, base, depth);
            }
        },
        CommandKind::Compound(form) => {
            compound_is_found(p, piped, form, reg, base, depth);
        },
        _ => {},
    }
    segment_in_pipeline(p, piped, seq, i, seq@.len(), reg, base, depth);
}

/// What stands in a compound command is found in it.
proof fn compound_is_found(
    p: PlainCommand,
    piped: bool,
    form: CompoundForm,
    reg: Seq<WrapperModel>,
    base: Seq<WrapperModel>,
    depth: nat,
)
    requires
        p.word_or_name is Some,
        in_compound(p, piped, form),
    ensures
        is_found(compound_commands(form, reg, base, depth), p, piped),
    decreases form,
{
    match form {
        CompoundForm::Arithmetic => {},
        CompoundForm::ArithmeticFor(body) => list_is_found(p, piped, body, reg, base, depth),
        CompoundForm::BraceGroup(body) => list_is_found(p, piped, body, reg, base, depth),
        CompoundForm::Subshell(body) => list_is_found(p, piped, body, reg, base, depth),
        CompoundForm::For(body) => list_is_found(p, piped, body, reg, base, depth),
        CompoundForm::Case(cases) => {
            let i = choose|i: int|
                0 <= i < cases@.len() && (match #[trigger] cases@[i] {
                    Some(body) => in_list(p, piped, body),
                    None => false,
                });
            list_is_found(p, piped, cases@[i]->0, reg, base, depth);
            case_in_cases(p, piped, cases, i, cases@.len(), reg, base, depth);
        },
        CompoundForm::If { condition, body, elses } => {
            let a = list_commands(condition, reg, base, depth);
            let b = list_commands(body, reg, base, depth);
            let c = match elses {
                Some(v) => elses_commands(v, v@.len(), reg, base, depth),
                None => Seq::empty(),
            };
            if in_list(p, piped, condition) {
                list_is_found(p, piped, condition, reg, base, depth);
                found_in_part(a, b, p, piped);
            } else if in_list(p, piped, body) {
                list_is_found(p, piped, body, reg, base, depth);
                found_in_part(a, b, p, piped);
            } else {
                let v = elses->0;
                let i = choose|i: int|
                    0 <= i < v@.len() && in_else(p, piped, #[trigger] v@[i]);
                if in_list(p, piped, v@[i].body) {
                    list_is_found(p, piped, v@[i].body, reg, base, depth);
                } else {
                    list_is_found(p, piped, v@[i].condition->0, reg, base, depth);
                }
                else_in_elses(p, piped, v, i, v@.len(), reg, base, depth);
            }
            found_in_part(a + b, c, p, piped);
        },
        CompoundForm::While { condition, body } => {
            if in_list(p, piped, condition) {
                list_is_found(p, piped, condition, reg, base, depth);
            } else {
                list_is_found(p, piped, body, reg, base, depth);
            }
            found_in_part(
                list_commands(condition, reg, base, depth),
                list_commands(body, reg, base, depth),
                p,
                piped,
            );
        },
        CompoundForm::Until { condition, body } => {
            if in_list(p, piped, condition) {
                list_is_found(p, piped, condition, reg, base, depth);
            } else {
                list_is_found(p, piped, body, reg, base, depth);
            }
            found_in_part(
                list_commands(condition, reg, base, depth),
                list_commands(body, reg, base, depth),
                p,
                piped,
            );
        },
    }
}

/// What is found in a list of a script is found in the script.
proof fn list_in_script(
    p: PlainCommand,
    piped: bool,
    lists: Vec<CommandList>,
    i: int,
    n: nat,
    reg: Seq<WrapperModel>,
    base: Seq<WrapperModel>,
    depth: nat,
)
    requires
        0 <= i < n <= lists@.len(),
        is_found(list_commands(lists@[i], reg, base, depth), p, piped),
    ensures
        is_found(lists_commands(lists, n, reg, base, depth), p, piped),
    decreases n,
{
    if i < n - 1 {
        list_in_script(p, piped, lists, i, (n - 1) as nat, reg, base, depth);
    }
    found_in_part(
        lists_commands(lists, (n - 1) as nat, reg, base, depth),
        list_commands(lists@[n - 1], reg, base, depth),
        p,
        piped,
    );
}

/// Every simple command with a name that stands anywhere in a script is found:
/// in a condition, in a then or else body, in a loop, in a case, in a group, in a
/// subshell or in a process substitution.
pub proof fn every_command_is_found(
    p: PlainCommand,
    piped: bool,
    script: Script,
    reg: Seq<WrapperModel>,
    base: Seq<WrapperModel>,
    depth: nat,
)
    requires
        p.word_or_name is Some,
        in_script(p, piped, script),
    ensures
        is_found(script_commands(script, reg, base, depth), p, piped),
{
    let i = choose|i: int|
        0 <= i < script.lists@.len() && in_list(p, piped, #[trigger] script.lists@[i]);
    list_is_found(p, piped, script.lists@[i], reg, base, depth);
    list_in_script(p, piped, script.lists, i, script.lists@.len(), reg, base, depth);
}

/// Whether `w` is the wrapper that a command is taken for: its expression is
/// definitely true of the command, and that of no wrapper before it is.
pub open spec fn is_taken_for(c: CommandModel, reg: Seq<WrapperModel>, i: int) -> bool {
    &&& 0 <= i < reg.len()
    &&& truth(eval(reg[i].when, wrapper_context(c, reg[i]))) == TriBool::True
    &&& forall|j: int|
        0 <= j < i ==> truth(eval((#[trigger] reg[j]).when, wrapper_context(c, reg[j])))
            != TriBool::True
}

/// Whether a value is what a wrapper hands on: its own where it captures none, and
/// otherwise what its expression yields. A text is known; what is unknown stays
/// so; anything else says that nothing changes.
pub open spec fn is_handed_on(
    value: EffectiveModel,
    own: EffectiveModel,
    capture: Option<super::cel::CelExpr>,
    ctx: Map<Seq<char>, Tri>,
) -> bool {
    match capture {
        None => value == own,
        Some(e) => match eval(e, ctx) {
            Tri::Text(s) => value == EffectiveModel::Known(s),
            Tri::Unknown => value is Unknown,
            _ => value is Unchanged,
        },
    }
}

/// Whether a command runs with what wrapper `i` hands on from its parent.
pub open spec fn runs_under(
    c: CommandModel,
    parent: CommandModel,
    reg: Seq<WrapperModel>,
    i: int,
) -> bool {
    let ctx = wrapper_context(parent, reg[i]);
    &&& is_taken_for(parent, reg, i)
    &&& is_handed_on(c.effective_user, parent.effective_user, reg[i].capture_user, ctx)
    &&& is_handed_on(c.effective_host, parent.effective_host, reg[i].capture_host, ctx)
    &&& if reg[i].changes_cwd {
        c.effective_cwd is Unknown
    } else {
        c.effective_cwd == parent.effective_cwd
    }
}

/// Whether what a command says of itself as a wrapper is so: it has inner
/// commands only if it is taken for a wrapper, and it is skipped exactly if that
/// one is to be skipped.
pub open spec fn is_wrapper_as_said(c: CommandModel, reg: Seq<WrapperModel>) -> bool {
    exists|i: int| #[trigger]
        is_taken_for(c, reg, i) && (c.inner == InnerExtraction::Transparent <==> reg[i].skip_wrapper)
}

/// Whether user, host and directory of a command come down from its wrappers: a
/// command without one has those of the pane, and every other runs with what its
/// parent, as a wrapper, hands on.
pub open spec fn comes_down(
    c: CommandModel,
    reg: Seq<WrapperModel>,
    base: Seq<WrapperModel>,
) -> bool
    decreases c,
{
    &&& c.inner != InnerExtraction::NotExtracted ==> is_wrapper_as_said(c, reg)
        || is_wrapper_as_said(c, base)
    &&& match c.parent {
        None => c.effective_user is Unchanged && c.effective_host is Unchanged
            && c.effective_cwd is Unchanged,
        Some(p) => {
            &&& (exists|i: int| #[trigger] runs_under(c, *p, reg, i)) || (exists|i: int| #[trigger]
                runs_under(c, *p, base, i))
            &&& comes_down(*p, reg, base)
        },
    }
}

/// A command before anything was extracted from it.
pub open spec fn unextracted(c: CommandModel) -> CommandModel {
    CommandModel { inner: InnerExtraction::NotExtracted, ..c }
}

/// Whether commands are as they have to be: each comes down from its wrappers, and
/// one of the command line itself that is said to have inner commands has one.
pub open spec fn are_in_line(
    s: Seq<CommandModel>,
    reg: Seq<WrapperModel>,
    base: Seq<WrapperModel>,
) -> bool {
    &&& forall|k: int| 0 <= k < s.len() ==> comes_down(#[trigger] s[k], reg, base)
    &&& forall|k: int|
        0 <= k < s.len() && (#[trigger] s[k]).parent is None && s[k].inner
            != InnerExtraction::NotExtracted ==> exists|j: int|
            0 <= j < s.len() && (#[trigger] s[j]).parent == Some(Box::new(unextracted(s[k])))
}

/// Two parts that are in line are so together.
proof fn parts_are_in_line(
    a: Seq<CommandModel>,
    b: Seq<CommandModel>,
    reg: Seq<WrapperModel>,
    base: Seq<WrapperModel>,
)
    requires
        are_in_line(a, reg, base),
        are_in_line(b, reg, base),
    ensures
        are_in_line(a + b, reg, base),
{
    let s = a + b;
    assert forall|k: int| 0 <= k < s.len() implies comes_down(#[trigger] s[k], reg, base) by {
        if k < a.len() {
            assert(s[k] == a[k]);
        } else {
            assert(s[k] == b[k - a.len()]);
        }
    }
    assert forall|k: int|
        0 <= k < s.len() && (#[trigger] s[k]).parent is None && s[k].inner
            != InnerExtraction::NotExtracted implies exists|j: int|
        0 <= j < s.len() && (#[trigger] s[j]).parent == Some(Box::new(unextracted(s[k]))) by {
        if k < a.len() {
            assert(s[k] == a[k]);
            let j = choose|j: int|
                0 <= j < a.len() && (#[trigger] a[j]).parent == Some(Box::new(unextracted(a[k])));
            assert(s[j] == a[j]);
        } else {
            let m = k - a.len();
            assert(s[k] == b[m]);
            let j = choose|j: int|
                0 <= j < b.len() && (#[trigger] b[j]).parent == Some(Box::new(unextracted(b[m])));
            assert(s[a.len() + j] == b[j]);
        }
    }
}

/// The wrapper that a command is taken for is the first that applies.
proof fn first_wrapper_is_taken(c: CommandModel, reg: Seq<WrapperModel>, i: int)
    requires
        0 <= i <= reg.len(),
        forall|j: int|
            0 <= j < i ==> truth(eval((#[trigger] reg[j]).when, wrapper_context(c, reg[j])))
                != TriBool::True,
    ensures
        ({
            let k = wrapper_index(c, reg, i);
            &&& i <= k <= reg.len()
            &&& k < reg.len() ==> is_taken_for(c, reg, k)
            &&& k == reg.len() ==> forall|j: int|
                0 <= j < reg.len() ==> truth(
                    eval((#[trigger] reg[j]).when, wrapper_context(c, reg[j])),
                ) != TriBool::True
        }),
    decreases reg.len() - i,
{
    if i < reg.len() && truth(eval(reg[i].when, wrapper_context(c, reg[i]))) != TriBool::True {
        first_wrapper_is_taken(c, reg, i + 1);
    }
}

/// What stands in a list of commands is in line with that list.
proof fn lists_are_in_line(
    lists: Vec<CommandList>,
    n: nat,
    reg: Seq<WrapperModel>,
    base: Seq<WrapperModel>,
    depth: nat,
)
    ensures
        are_in_line(lists_commands(lists, n, reg, base, depth), reg, base),
    decreases depth, lists, n, 0nat,
{
    if 0 < n <= lists@.len() {
        lists_are_in_line(lists, (n - 1) as nat, reg, base, depth);
        list_is_in_line(lists@[n - 1], reg, base, depth);
        parts_are_in_line(
            lists_commands(lists, (n - 1) as nat, reg, base, depth),
            list_commands(lists@[n - 1], reg, base, depth),
            reg,
            base,
        );
    }
}

proof fn list_is_in_line(
    list: CommandList,
    reg: Seq<WrapperModel>,
    base: Seq<WrapperModel>,
    depth: nat,
)
    ensures
        are_in_line(list_commands(list, reg, base, depth), reg, base),
    decreases depth, list, 0nat, 0nat,
{
    entries_are_in_line(list.items, list.items@.len(), reg, base, depth);
}

proof fn entries_are_in_line(
    entries: Vec<ListEntry>,
    n: nat,
    reg: Seq<WrapperModel>,
    base: Seq<WrapperModel>,
    depth: nat,
)
    ensures
        are_in_line(entries_commands(entries, n, reg, base, depth), reg, base),
    decreases depth, entries, n, 0nat,
{
    if 0 < n <= entries@.len() {
        entries_are_in_line(entries, (n - 1) as nat, reg, base, depth);
        chain_is_in_line(entries@[n - 1].chain, reg, base, depth);
        parts_are_in_line(
            entries_commands(entries, (n - 1) as nat, reg, base, depth),
            chain_commands(entries@[n - 1].chain, reg, base, depth),
            reg,
            base,
        );
    }
}

proof fn chain_is_in_line(
    chain: Chain,
    reg: Seq<WrapperModel>,
    base: Seq<WrapperModel>,
    depth: nat,
)
    ensures
        are_in_line(chain_commands(chain, reg, base, depth), reg, base),
    decreases depth, chain, 0nat, 0nat,
{
    pipeline_is_in_line(chain.first.seq, chain.first.seq@.len(), reg, base, depth);
    links_are_in_line(chain.additional, chain.additional@.len(), reg, base, depth);
    parts_are_in_line(
        pipeline_commands(chain.first.seq, chain.first.seq@.len(), reg, base, depth),
        links_commands(chain.additional, chain.additional@.len(), reg, base, depth),
        reg,
        base,
    );
}

proof fn links_are_in_line(
    links: Vec<ChainLink>,
    n: nat,
    reg: Seq<WrapperModel>,
    base: Seq<WrapperModel>,
    depth: nat,
)
    ensures
        are_in_line(links_commands(links, n, reg, base, depth), reg, base),
    decreases depth, links, n, 0nat,
{
    if 0 < n <= links@.len() {
        let p = links@[n - 1].pipeline.seq;
        links_are_in_line(links, (n - 1) as nat, reg, base, depth);
        pipeline_is_in_line(p, p@.len(), reg, base, depth);
        parts_are_in_line(
            links_commands(links, (n - 1) as nat, reg, base, depth),
            pipeline_commands(p, p@.len(), reg, base, depth),
            reg,
            base,
        );
    }
}

proof fn pipeline_is_in_line(
    seq: Vec<ShellCommand>,
    n: nat,
    reg: Seq<WrapperModel>,
    base: Seq<WrapperModel>,
    depth: nat,
)
    ensures
        are_in_line(pipeline_commands(seq, n, reg, base, depth), reg, base),
    decreases depth, seq, n, 0nat,
{
    if 0 < n <= seq@.len() {
        pipeline_is_in_line(seq, (n - 1) as nat, reg, base, depth);
        match seq@[n - 1].kind {
            CommandKind::Simple(p) => simple_is_in_line(p, n > 1, reg, base, depth),
            CommandKind::Compound(c) => compound_is_in_line(c, reg, base, depth),
            _ => {},
        }
        parts_are_in_line(
            pipeline_commands(seq, (n - 1) as nat, reg, base, depth),
            segment_commands(seq, n - 1, reg, base, depth),
            reg,
            base,
        );
    }
}

proof fn compound_is_in_line(
    c: CompoundForm,
    reg: Seq<WrapperModel>,
    base: Seq<WrapperModel>,
    depth: nat,
)
    ensures
        are_in_line(compound_commands(c, reg, base, depth), reg, base),
    decreases depth, c, 0nat, 0nat,
{
    match c {
        CompoundForm::Arithmetic => {},
        CompoundForm::ArithmeticFor(list) => list_is_in_line(list, reg, base, depth),
        CompoundForm::BraceGroup(list) => list_is_in_line(list, reg, base, depth),
        CompoundForm::Subshell(list) => list_is_in_line(list, reg, base, depth),
        CompoundForm::For(list) => list_is_in_line(list, reg, base, depth),
        CompoundForm::Case(cases) => cases_are_in_line(cases, cases@.len(), reg, base, depth),
        CompoundForm::If { condition, body, elses } => {
            let x = list_commands(condition, reg, base, depth);
            let y = list_commands(body, reg, base, depth);
            list_is_in_line(condition, reg, base, depth);
            list_is_in_line(body, reg, base, depth);
            parts_are_in_line(x, y, reg, base);
            let z = match elses {
                Some(v) => elses_commands(v, v@.len(), reg, base, depth),
                None => Seq::empty(),
            };
            if let Some(v) = elses {
                elses_are_in_line(v, v@.len(), reg, base, depth);
            }
            parts_are_in_line(x + y, z, reg, base);
        },
        CompoundForm::While { condition, body } => {
            list_is_in_line(condition, reg, base, depth);
            list_is_in_line(body, reg, base, depth);
            parts_are_in_line(
                list_commands(condition, reg, base, depth),
                list_commands(body, reg, base, depth),
                reg,
                base,
            );
        },
        CompoundForm::Until { condition, body } => {
            list_is_in_line(condition, reg, base, depth);
            list_is_in_line(body, reg, base, depth);
            parts_are_in_line(
                list_commands(condition, reg, base, depth),
                list_commands(body, reg, base, depth),
                reg,
                base,
            );
        },
    }
}

proof fn cases_are_in_line(
    cases: Vec<Option<CommandList>>,
    n: nat,
    reg: Seq<WrapperModel>,
    base: Seq<WrapperModel>,
    depth: nat,
)
    ensures
        are_in_line(cases_commands(cases, n, reg, base, depth), reg, base),
    decreases depth, cases, n, 0nat,
{
    if 0 < n <= cases@.len() {
        cases_are_in_line(cases, (n - 1) as nat, reg, base, depth);
        if let Some(list) = cases@[n - 1] {
            list_is_in_line(list, reg, base, depth);
        }
        parts_are_in_line(
            cases_commands(cases, (n - 1) as nat, reg, base, depth),
            match cases@[n - 1] {
                Some(list) => list_commands(list, reg, base, depth),
                None => Seq::empty(),
            },
            reg,
            base,
        );
    }
}

proof fn elses_are_in_line(
    elses: Vec<ElsePart>,
    n: nat,
    reg: Seq<WrapperModel>,
    base: Seq<WrapperModel>,
    depth: nat,
)
    ensures
        are_in_line(elses_commands(elses, n, reg, base, depth), reg, base),
    decreases depth, elses, n, 0nat,
{
    if 0 < n <= elses@.len() {
        elses_are_in_line(elses, (n - 1) as nat, reg, base, depth);
        let before = elses_commands(elses, (n - 1) as nat, reg, base, depth);
        let condition = match elses@[n - 1].condition {
            Some(list) => list_commands(list, reg, base, depth),
            None => Seq::empty(),
        };
        if let Some(list) = elses@[n - 1].condition {
            list_is_in_line(list, reg, base, depth);
        }
        list_is_in_line(elses@[n - 1].body, reg, base, depth);
        parts_are_in_line(before, condition, reg, base);
        parts_are_in_line(
            before + condition,
            list_commands(elses@[n - 1].body, reg, base, depth),
            reg,
            base,
        );
    }
}

proof fn simple_is_in_line(
    p: PlainCommand,
    piped: bool,
    reg: Seq<WrapperModel>,
    base: Seq<WrapperModel>,
    depth: nat,
)
    ensures
        are_in_line(simple_commands(p, piped, reg, base, depth), reg, base),
    decreases depth, p, 0nat, 0nat,
{
    if let Some(name) = p.word_or_name {
        let c = written_command(p, name@, piped);
        let own = if depth == 0 {
            seq![c]
        } else {
            wrapped_commands(c, reg, base, (depth - 1) as nat)
        };
        if depth > 0 {
            wrapped_is_in_line(c, reg, base, (depth - 1) as nat);
        }
        let suffix = optional_items_commands(p.suffix, reg, base, depth);
        let prefix = optional_items_commands(p.prefix, reg, base, depth);
        if let Some(v) = p.suffix {
            items_are_in_line(v, v@.len(), reg, base, depth);
        }
        if let Some(v) = p.prefix {
            items_are_in_line(v, v@.len(), reg, base, depth);
        }
        parts_are_in_line(own, suffix, reg, base);
        parts_are_in_line(own + suffix, prefix, reg, base);
    }
}

proof fn items_are_in_line(
    items: Vec<CommandPart>,
    n: nat,
    reg: Seq<WrapperModel>,
    base: Seq<WrapperModel>,
    depth: nat,
)
    ensures
        are_in_line(items_commands(items, n, reg, base, depth), reg, base),
    decreases depth, items, n, 0nat,
{
    if 0 < n <= items@.len() {
        items_are_in_line(items, (n - 1) as nat, reg, base, depth);
        let before = items_commands(items, (n - 1) as nat, reg, base, depth);
        match items@[n - 1] {
            CommandPart::Word(w) => {
                if let Some(pieces) = parsed_word(w@) {
                    if depth > 0 {
                        pieces_are_in_line(pieces, pieces@.len(), reg, base, (depth - 1) as nat);
                        parts_are_in_line(
                            before,
                            pieces_commands(pieces, pieces@.len(), base, (depth - 1) as nat),
                            reg,
                            base,
                        );
                    } else {
                        assert(before + Seq::<CommandModel>::empty() =~= before);
                    }
                } else {
                    assert(before + Seq::<CommandModel>::empty() =~= before);
                }
            },
            CommandPart::ProcessSubstitution(list) => {
                list_is_in_line(list, reg, base, depth);
                parts_are_in_line(before, list_commands(list, reg, base, depth), reg, base);
            },
            _ => {
                assert(before + Seq::<CommandModel>::empty() =~= before);
            },
        }
    }
}

/// What comes down by the wrappers of substitutions alone comes down.
proof fn base_is_in_line(s: Seq<CommandModel>, reg: Seq<WrapperModel>, base: Seq<WrapperModel>)
    requires
        are_in_line(s, base, base),
    ensures
        are_in_line(s, reg, base),
{
    assert forall|k: int| 0 <= k < s.len() implies comes_down(#[trigger] s[k], reg, base) by {
        base_comes_down(s[k], reg, base);
    }
}

proof fn base_comes_down(c: CommandModel, reg: Seq<WrapperModel>, base: Seq<WrapperModel>)
    requires
        comes_down(c, base, base),
    ensures
        comes_down(c, reg, base),
    decreases c,
{
    if let Some(p) = c.parent {
        base_comes_down(*p, reg, base);
    }
}

proof fn pieces_are_in_line(
    pieces: Vec<WordPart>,
    n: nat,
    reg: Seq<WrapperModel>,
    base: Seq<WrapperModel>,
    depth: nat,
)
    ensures
        are_in_line(pieces_commands(pieces, n, base, depth), reg, base),
    decreases depth, pieces, n, 0nat,
{
    if 0 < n <= pieces@.len() {
        pieces_are_in_line(pieces, (n - 1) as nat, reg, base, depth);
        let before = pieces_commands(pieces, (n - 1) as nat, base, depth);
        assert(before + Seq::<CommandModel>::empty() =~= before);
        match pieces@[n - 1] {
            WordPart::CommandSubstitution(text) => {
                if depth > 0 {
                    text_is_in_line(text@, base, base, (depth - 1) as nat);
                    let more = text_commands(text@, base, base, (depth - 1) as nat);
                    base_is_in_line(more, reg, base);
                    parts_are_in_line(before, more, reg, base);
                }
            },
            WordPart::BackquotedSubstitution(text) => {
                if depth > 0 {
                    text_is_in_line(text@, base, base, (depth - 1) as nat);
                    let more = text_commands(text@, base, base, (depth - 1) as nat);
                    base_is_in_line(more, reg, base);
                    parts_are_in_line(before, more, reg, base);
                }
            },
            WordPart::DoubleQuoted(inner) => {
                pieces_are_in_line(inner, inner@.len(), reg, base, depth);
                parts_are_in_line(
                    before,
                    pieces_commands(inner, inner@.len(), base, depth),
                    reg,
                    base,
                );
            },
            _ => {},
        }
    }
}

proof fn text_is_in_line(
    text: Seq<char>,
    reg: Seq<WrapperModel>,
    base: Seq<WrapperModel>,
    depth: nat,
)
    ensures
        are_in_line(text_commands(text, reg, base, depth), reg, base),
    decreases depth, None::<()>, 0nat, 0nat,
{
    if let Ok(script) = script_of(text) {
        if depth > 0 {
            lists_are_in_line(script.lists, script.lists@.len(), reg, base, (depth - 1) as nat);
        }
    }
}

proof fn wrapped_is_in_line(
    c: CommandModel,
    reg: Seq<WrapperModel>,
    base: Seq<WrapperModel>,
    depth: nat,
)
    requires
        comes_down(c, reg, base),
        c.inner == InnerExtraction::NotExtracted,
    ensures
        are_in_line(wrapped_commands(c, reg, base, depth), reg, base),
    decreases depth, None::<()>, 2nat, 0nat,
{
    let i = wrapper_index(c, reg, 0);
    first_wrapper_is_taken(c, reg, 0);
    if 0 <= i < reg.len() {
        let s = wrapped_commands(c, reg, base, depth);
        let last = s.last();
        let seen = CommandModel { inner: InnerExtraction::NotExtracted, ..last };
        assert(seen.parent == c.parent);
        stays_in_line(c, seen, reg, base);
        assert(seen == (CommandModel { getopt: super::parse::wrapper_options(c, reg[i]), ..c }));
        assert(wrapper_context(seen, reg[i]) == wrapper_context(c, reg[i]));
        same_wrapper(c, seen, reg, i);
        extraction_is_in_line(seen, i, reg, base, depth);
        let found = extraction(seen, reg[i], reg, base, depth);
        same_wrapper(c, last, reg, i);
        assert(is_taken_for(last, reg, i));
        if last.inner != InnerExtraction::NotExtracted {
            assert(is_wrapper_as_said(last, reg));
        }
        stays_in_line(c, last, reg, base);
        assert(s == found.commands.push(last));
        assert(unextracted(last) == seen);
        assert forall|k: int|
            0 <= k < s.len() && (#[trigger] s[k]).parent is None && s[k].inner
                != InnerExtraction::NotExtracted implies exists|j: int|
            0 <= j < s.len() && (#[trigger] s[j]).parent == Some(Box::new(unextracted(s[k]))) by {
            if k < found.commands.len() {
                assert(s[k] == found.commands[k]);
            } else {
                let j = choose|j: int|
                    0 <= j < found.commands.len() && (#[trigger] found.commands[j]).parent == Some(
                        Box::new(seen),
                    );
                assert(s[j] == found.commands[j]);
            }
        }
        assert forall|k: int| 0 <= k < s.len() implies comes_down(#[trigger] s[k], reg, base) by {
            if k < found.commands.len() {
                assert(s[k] == found.commands[k]);
            }
        }
    }
}

/// A command that runs with the same user, host and directory under the same
/// parent comes down as well.
proof fn stays_in_line(
    c: CommandModel,
    d: CommandModel,
    reg: Seq<WrapperModel>,
    base: Seq<WrapperModel>,
)
    requires
        comes_down(c, reg, base),
        d.parent == c.parent,
        d.effective_user == c.effective_user,
        d.effective_host == c.effective_host,
        d.effective_cwd == c.effective_cwd,
        d.inner == InnerExtraction::NotExtracted || is_wrapper_as_said(d, reg),
    ensures
        comes_down(d, reg, base),
{
    if let Some(p) = c.parent {
        if exists|m: int| #[trigger] runs_under(c, *p, reg, m) {
            let m = choose|m: int| #[trigger] runs_under(c, *p, reg, m);
            assert(runs_under(d, *p, reg, m));
        } else {
            let m = choose|m: int| #[trigger] runs_under(c, *p, base, m);
            assert(runs_under(d, *p, base, m));
        }
    }
}

/// A command with the same name and arguments is taken for the same wrapper.
proof fn same_wrapper(c: CommandModel, d: CommandModel, reg: Seq<WrapperModel>, i: int)
    requires
        is_taken_for(c, reg, i),
        c.name == d.name,
        c.args == d.args,
        c.args_complete == d.args_complete,
    ensures
        is_taken_for(d, reg, i),
{
    assert forall|w: WrapperModel| wrapper_context(c, w) == wrapper_context(d, w) by {}
}

/// What a wrapper yields: commands that come down from it, one at least of them
/// directly where it is said to yield any.
spec fn comes_from(
    e: Extraction,
    c: CommandModel,
    reg: Seq<WrapperModel>,
    base: Seq<WrapperModel>,
) -> bool {
    &&& forall|k: int| 0 <= k < e.commands.len() ==> comes_down(#[trigger] e.commands[k], reg, base)
    &&& forall|k: int| 0 <= k < e.commands.len() ==> (#[trigger] e.commands[k]).parent is Some
    &&& e.found ==> exists|j: int|
        0 <= j < e.commands.len() && (#[trigger] e.commands[j]).parent == Some(Box::new(c))
}

proof fn extraction_is_in_line(
    c: CommandModel,
    i: int,
    reg: Seq<WrapperModel>,
    base: Seq<WrapperModel>,
    depth: nat,
)
    requires
        comes_down(c, reg, base),
        is_taken_for(c, reg, i),
    ensures
        comes_from(extraction(c, reg[i], reg, base, depth), c, reg, base),
    decreases depth, None::<()>, 1nat, 0nat,
{
    let w = reg[i];
    let inherited = inherited_from(c, w);
    let e = extraction(c, w, reg, base, depth);
    match eval(w.inner, wrapper_context(c, w)) {
        Tri::List { elements, .. } => {
            if elements.len() > 0 && elements[0] is List {
                blocks_are_in_line(elements, elements.len(), c, i, reg, base, depth);
            } else if elements.len() > 0 && list_texts(elements).len() > 0 {
                inner_is_in_line(c, i, list_texts(elements), reg, base, depth);
            }
        },
        Tri::Text(text) => {
            if !has_expansion(unquoted(text)) {
                let commands = text_commands(unquoted(text), reg, base, depth);
                text_is_in_line(unquoted(text), reg, base, depth);
                let taken = adopted(commands, c, inherited);
                assert forall|k: int| 0 <= k < taken.len() implies comes_down(
                    #[trigger] taken[k],
                    reg,
                    base,
                ) by {
                    let d = taken[k];
                    let was = commands[k];
                    assert(comes_down(was, reg, base));
                    assert(runs_under(d, c, reg, i));
                    if d.inner != InnerExtraction::NotExtracted {
                        if is_wrapper_as_said(was, reg) {
                            let m = choose|m: int| #[trigger]
                                is_taken_for(was, reg, m) && (was.inner
                                    == InnerExtraction::Transparent <==> reg[m].skip_wrapper);
                            same_wrapper(was, d, reg, m);
                            assert(is_wrapper_as_said(d, reg));
                        } else {
                            let m = choose|m: int| #[trigger]
                                is_taken_for(was, base, m) && (was.inner
                                    == InnerExtraction::Transparent <==> base[m].skip_wrapper);
                            same_wrapper(was, d, base, m);
                            assert(is_wrapper_as_said(d, base));
                        }
                    }
                }
                if e.found {
                    assert(e.commands[0].parent == Some(Box::new(c)));
                }
            }
        },
        _ => {},
    }
}

/// An inner command and those that it wraps come down from the wrapper.
proof fn inner_is_in_line(
    c: CommandModel,
    i: int,
    words: Seq<Seq<char>>,
    reg: Seq<WrapperModel>,
    base: Seq<WrapperModel>,
    depth: nat,
)
    requires
        comes_down(c, reg, base),
        is_taken_for(c, reg, i),
        words.len() > 0,
    ensures
        ({
            let inner = inner_command(c, words, inherited_from(c, reg[i]), reg[i].args_complete);
            let s = if depth == 0 {
                seq![inner]
            } else {
                wrapped_commands(inner, reg, base, (depth - 1) as nat)
            };
            comes_from(Extraction { commands: s, found: true }, c, reg, base)
        }),
    decreases depth, None::<()>, 0nat, 0nat,
{
    let inner = inner_command(c, words, inherited_from(c, reg[i]), reg[i].args_complete);
    assert(runs_under(inner, c, reg, i));
    assert(comes_down(inner, reg, base));
    if depth > 0 {
        let s = wrapped_commands(inner, reg, base, (depth - 1) as nat);
        wrapped_is_in_line(inner, reg, base, (depth - 1) as nat);
        wrapper_stays(inner, reg, base, (depth - 1) as nat);
        assert(s[s.len() - 1].parent == Some(Box::new(c)));
        wrapped_have_parents(inner, reg, base, (depth - 1) as nat);
    } else {
        assert(seq![inner][0].parent == Some(Box::new(c)));
    }
}

/// What a command with a parent wraps has a parent.
proof fn wrapped_have_parents(
    c: CommandModel,
    reg: Seq<WrapperModel>,
    base: Seq<WrapperModel>,
    depth: nat,
)
    requires
        c.parent is Some,
        comes_down(c, reg, base),
        c.inner == InnerExtraction::NotExtracted,
    ensures
        forall|k: int|
            0 <= k < wrapped_commands(c, reg, base, depth).len() ==> (#[trigger] wrapped_commands(
                c,
                reg,
                base,
                depth,
            )[k]).parent is Some,
    decreases depth, None::<()>, 2nat, 0nat,
{
    let i = wrapper_index(c, reg, 0);
    first_wrapper_is_taken(c, reg, 0);
    if 0 <= i < reg.len() {
        let s = wrapped_commands(c, reg, base, depth);
        let seen = CommandModel { getopt: super::parse::wrapper_options(c, reg[i]), ..c };
        same_wrapper(c, seen, reg, i);
        stays_in_line(c, seen, reg, base);
        extraction_is_in_line(seen, i, reg, base, depth);
        let found = extraction(seen, reg[i], reg, base, depth);
        assert forall|k: int| 0 <= k < s.len() implies (#[trigger] s[k]).parent is Some by {
            if k < found.commands.len() {
                assert(s[k] == found.commands[k]);
            }
        }
    }
}

proof fn blocks_are_in_line(
    blocks: Seq<Tri>,
    n: nat,
    c: CommandModel,
    i: int,
    reg: Seq<WrapperModel>,
    base: Seq<WrapperModel>,
    depth: nat,
)
    requires
        comes_down(c, reg, base),
        is_taken_for(c, reg, i),
    ensures
        comes_from(
            blocks_extraction(
                blocks,
                n,
                c,
                inherited_from(c, reg[i]),
                reg[i].args_complete,
                reg,
                base,
                depth,
            ),
            c,
            reg,
            base,
        ),
    decreases depth, None::<()>, 0nat, n + 1,
{
    if 0 < n <= blocks.len() {
        blocks_are_in_line(blocks, (n - 1) as nat, c, i, reg, base, depth);
        if let Tri::List { elements, .. } = blocks[n - 1] {
            let words = list_texts(elements);
            if words.len() > 0 {
                inner_is_in_line(c, i, words, reg, base, depth);
                let inherited = inherited_from(c, reg[i]);
                let before = blocks_extraction(
                    blocks,
                    (n - 1) as nat,
                    c,
                    inherited,
                    reg[i].args_complete,
                    reg,
                    base,
                    depth,
                );
                let inner = inner_command(c, words, inherited, reg[i].args_complete);
                let s = if depth == 0 {
                    seq![inner]
                } else {
                    wrapped_commands(inner, reg, base, (depth - 1) as nat)
                };
                let all = before.commands + s;
                assert forall|k: int| 0 <= k < all.len() implies comes_down(
                    #[trigger] all[k],
                    reg,
                    base,
                ) && all[k].parent is Some by {
                    if k < before.commands.len() {
                        assert(all[k] == before.commands[k]);
                    } else {
                        assert(all[k] == s[k - before.commands.len()]);
                    }
                }
                let j = choose|j: int|
                    0 <= j < s.len() && (#[trigger] s[j]).parent == Some(Box::new(c));
                assert(all[before.commands.len() + j].parent == Some(Box::new(c)));
            }
        }
    }
}

/// User, host and directory go down a chain of wrappers: of every command that is
/// found in a script, they are those of the pane where no wrapper stands above
/// it, and otherwise what its parent hands on. A wrapper hands on its own where it
/// captures none.
pub proof fn user_and_host_come_down(
    script: Script,
    reg: Seq<WrapperModel>,
    base: Seq<WrapperModel>,
    depth: nat,
    k: int,
)
    requires
        0 <= k < script_commands(script, reg, base, depth).len(),
    ensures
        comes_down(script_commands(script, reg, base, depth)[k], reg, base),
{
    lists_are_in_line(script.lists, script.lists@.len(), reg, base, depth);
}

/// Where no wrapper captures a host, every command runs on that of the pane; and
/// so for the user.
pub proof fn nothing_captured_nothing_changed(
    c: CommandModel,
    reg: Seq<WrapperModel>,
    base: Seq<WrapperModel>,
)
    requires
        comes_down(c, reg, base),
    ensures
        (forall|i: int| 0 <= i < reg.len() ==> (#[trigger] reg[i]).capture_host is None) && (
        forall|i: int| 0 <= i < base.len() ==> (#[trigger] base[i]).capture_host is None)
            ==> c.effective_host is Unchanged,
        (forall|i: int| 0 <= i < reg.len() ==> (#[trigger] reg[i]).capture_user is None) && (
        forall|i: int| 0 <= i < base.len() ==> (#[trigger] base[i]).capture_user is None)
            ==> c.effective_user is Unchanged,
    decreases c,
{
    if let Some(p) = c.parent {
        nothing_captured_nothing_changed(*p, reg, base);
        if exists|i: int| #[trigger] runs_under(c, *p, reg, i) {
            let i = choose|i: int| #[trigger] runs_under(c, *p, reg, i);
            assert(runs_under(c, *p, reg, i));
            assert(reg[i] == reg[i]);
        } else {
            let i = choose|i: int| #[trigger] runs_under(c, *p, base, i);
            assert(runs_under(c, *p, base, i));
            assert(base[i] == base[i]);
        }
    }
}

/// The verdict on a command line is at least as restrictive as what the rules say
/// about any command in it, in the pane with the directory to which the commands
/// before it have moved. A command is left to its inner commands only if it is
/// taken for a wrapper that is to be skipped, and then one of these is there.
pub proof fn every_command_is_judged(
    text: Seq<char>,
    script: Script,
    p: PlainCommand,
    piped: bool,
    reg: Seq<WrapperModel>,
    base: Seq<WrapperModel>,
    pane: PaneModel,
    set: RuleSet,
) -> (k: int)
    requires
        script_of(text) == Ok::<Script, Seq<char>>(script),
        p.word_or_name is Some,
        in_script(p, piped, script),
    ensures
        ({
            let all = script_commands(script, reg, base, u64::MAX as nat);
            let c = all[k];
            &&& 0 <= k < all.len()
            &&& is_entry(c, p, piped)
            &&& c.inner == InnerExtraction::Transparent ==> {
                &&& exists|i: int|
                    (#[trigger] is_taken_for(c, reg, i) && reg[i].skip_wrapper) || (is_taken_for(
                        c,
                        base,
                        i,
                    ) && base[i].skip_wrapper)
                &&& exists|j: int|
                    0 <= j < all.len() && (#[trigger] all[j]).parent == Some(
                        Box::new(unextracted(c)),
                    )
            }
            &&& c.inner != InnerExtraction::Transparent ==> exists|moved: EffectiveModel|
                rank(policy_on(commands_of(text, reg, base), pane, set).0) >= rank(
                    (#[trigger] verdict(c, (PaneModel { moved, ..pane }), set)).0,
                )
        }),
{
    let all = script_commands(script, reg, base, u64::MAX as nat);
    assert(commands_of(text, reg, base) == Ok::<Seq<CommandModel>, Seq<char>>(all));
    every_command_is_found(p, piped, script, reg, base, u64::MAX as nat);
    let k = choose|k: int| 0 <= k < all.len() && is_entry(#[trigger] all[k], p, piped);
    let c = all[k];
    lists_are_in_line(script.lists, script.lists@.len(), reg, base, u64::MAX as nat);
    assert(comes_down(c, reg, base));
    if c.inner == InnerExtraction::Transparent {
        if is_wrapper_as_said(c, reg) {
            let i = choose|i: int| #[trigger]
                is_taken_for(c, reg, i) && (c.inner == InnerExtraction::Transparent
                    <==> reg[i].skip_wrapper);
            assert(is_taken_for(c, reg, i) && reg[i].skip_wrapper);
        } else {
            let i = choose|i: int| #[trigger]
                is_taken_for(c, base, i) && (c.inner == InnerExtraction::Transparent
                    <==> base[i].skip_wrapper);
            let here = is_taken_for(c, reg, i);
            assert(is_taken_for(c, base, i) && base[i].skip_wrapper);
        }
    } else {
        let moved = pane_before(all, k, pane, set).moved;
        only_the_directory_is_captured(all, k, pane, set);
        verdict_is_most_restrictive(all, all.len() as int, k, pane, set);
        assert(rank(Decision::Deny) >= rank(verdict(c, (PaneModel { moved, ..pane }), set).0));
    }
    k
}

/// The texts of a list of texts.
proof fn texts_are_listed(elements: Seq<Tri>)
    requires
        forall|i: int| 0 <= i < elements.len() ==> (#[trigger] elements[i]) is Text,
    ensures
        list_texts(elements) == Seq::new(elements.len(), |i: int| elements[i]->Text_0),
    decreases elements.len(),
{
    if elements.len() > 0 {
        let front = elements.drop_last();
        assert forall|i: int| 0 <= i < front.len() implies (#[trigger] front[i]) is Text by {
            assert(elements[i] is Text);
        }
        texts_are_listed(front);
        assert(elements[elements.len() - 1] is Text);
        assert(list_texts(elements) =~= Seq::new(elements.len(), |i: int| elements[i]->Text_0));
    } else {
        assert(list_texts(elements) =~= Seq::new(elements.len(), |i: int| elements[i]->Text_0));
    }
}

/// Whether a command is the one that a list of texts writes, run by wrapper `c`:
/// the first is its name, the others are its arguments.
pub open spec fn is_inner(d: CommandModel, words: Seq<Tri>, c: CommandModel, w: WrapperModel) -> bool {
    let ctx = wrapper_context(c, w);
    &&& words.len() > 0
    &&& d.name == words[0]->Text_0
    &&& d.args.len() == words.len() - 1
    &&& forall|i: int| 1 <= i < words.len() ==> d.args[i - 1] == (#[trigger] words[i])->Text_0
    &&& d.args_complete == w.args_complete
    &&& d.parent == Some(Box::new(c))
    &&& !d.is_pipe_target
    &&& d.redirects.len() == 0
    &&& is_handed_on(d.effective_user, c.effective_user, w.capture_user, ctx)
    &&& is_handed_on(d.effective_host, c.effective_host, w.capture_host, ctx)
    &&& if w.changes_cwd {
        d.effective_cwd is Unknown
    } else {
        d.effective_cwd == c.effective_cwd
    }
}

/// The commands of an inner command end with it.
proof fn inner_is_there(
    c: CommandModel,
    w: WrapperModel,
    words: Seq<Tri>,
    reg: Seq<WrapperModel>,
    base: Seq<WrapperModel>,
    depth: nat,
)
    requires
        words.len() > 0,
        forall|i: int| 0 <= i < words.len() ==> (#[trigger] words[i]) is Text,
    ensures
        list_texts(words).len() > 0,
        ({
            let inner = inner_command(c, list_texts(words), inherited_from(c, w), w.args_complete);
            let s = if depth == 0 {
                seq![inner]
            } else {
                wrapped_commands(inner, reg, base, (depth - 1) as nat)
            };
            s.len() > 0 && is_inner(s.last(), words, c, w)
        }),
{
    texts_are_listed(words);
    let inner = inner_command(c, list_texts(words), inherited_from(c, w), w.args_complete);
    assert(is_inner(inner, words, c, w));
    if depth > 0 {
        wrapper_stays(inner, reg, base, (depth - 1) as nat);
    } else {
        assert(seq![inner].last() == inner);
    }
}

/// A wrapper whose `inner` yields a list of texts wraps the command that they
/// write, which runs with what the wrapper hands on: its own user and host where
/// it captures none.
pub proof fn listed_command_is_extracted(
    c: CommandModel,
    w: WrapperModel,
    words: Seq<Tri>,
    reg: Seq<WrapperModel>,
    base: Seq<WrapperModel>,
    depth: nat,
)
    requires
        eval(w.inner, wrapper_context(c, w)) matches Tri::List { elements, .. } && elements == words,
        words.len() > 0,
        forall|i: int| 0 <= i < words.len() ==> (#[trigger] words[i]) is Text,
    ensures
        extraction(c, w, reg, base, depth).found,
        exists|j: int|
            0 <= j < extraction(c, w, reg, base, depth).commands.len() && is_inner(
                #[trigger] extraction(c, w, reg, base, depth).commands[j],
                words,
                c,
                w,
            ),
{
    assert(words[0] is Text);
    inner_is_there(c, w, words, reg, base, depth);
    let e = extraction(c, w, reg, base, depth);
    let n = e.commands.len() as int;
    assert(e.commands[n - 1] == e.commands.last());
    assert(is_inner(e.commands[n - 1], words, c, w));
}

/// A block that writes a command is among the blocks that were extracted.
proof fn block_is_extracted(
    c: CommandModel,
    w: WrapperModel,
    blocks: Seq<Tri>,
    b: int,
    n: nat,
    reg: Seq<WrapperModel>,
    base: Seq<WrapperModel>,
    depth: nat,
)
    requires
        0 <= b < n <= blocks.len(),
        blocks[b] is List,
        blocks[b]->elements.len() > 0,
        forall|i: int|
            0 <= i < blocks[b]->elements.len() ==> (#[trigger] blocks[b]->elements[i]) is Text,
    ensures
        ({
            let e = blocks_extraction(
                blocks,
                n,
                c,
                inherited_from(c, w),
                w.args_complete,
                reg,
                base,
                depth,
            );
            e.found && exists|j: int|
                0 <= j < e.commands.len() && is_inner(
                    #[trigger] e.commands[j],
                    blocks[b]->elements,
                    c,
                    w,
                )
        }),
    decreases n,
{
    let inherited = inherited_from(c, w);
    let before = blocks_extraction(
        blocks,
        (n - 1) as nat,
        c,
        inherited,
        w.args_complete,
        reg,
        base,
        depth,
    );
    let e = blocks_extraction(blocks, n, c, inherited, w.args_complete, reg, base, depth);
    let words = blocks[b]->elements;
    if b < n - 1 {
        block_is_extracted(c, w, blocks, b, (n - 1) as nat, reg, base, depth);
        let j = choose|j: int|
            0 <= j < before.commands.len() && is_inner(#[trigger] before.commands[j], words, c, w);
        assert(e.commands[j] == before.commands[j]);
    } else {
        inner_is_there(c, w, words, reg, base, depth);
        assert(e.commands[e.commands.len() - 1] == e.commands.last());
        assert(is_inner(e.commands[e.commands.len() - 1], words, c, w));
    }
}

/// A wrapper whose `inner` yields a list of lists wraps the command of each.
pub proof fn every_block_is_extracted(
    c: CommandModel,
    w: WrapperModel,
    blocks: Seq<Tri>,
    b: int,
    reg: Seq<WrapperModel>,
    base: Seq<WrapperModel>,
    depth: nat,
)
    requires
        eval(w.inner, wrapper_context(c, w)) matches Tri::List { elements, .. } && elements
            == blocks,
        0 <= b < blocks.len(),
        blocks[0] is List,
        blocks[b] is List,
        blocks[b]->elements.len() > 0,
        forall|i: int|
            0 <= i < blocks[b]->elements.len() ==> (#[trigger] blocks[b]->elements[i]) is Text,
    ensures
        extraction(c, w, reg, base, depth).found,
        exists|j: int|
            0 <= j < extraction(c, w, reg, base, depth).commands.len() && is_inner(
                #[trigger] extraction(c, w, reg, base, depth).commands[j],
                blocks[b]->elements,
                c,
                w,
            ),
{
    block_is_extracted(c, w, blocks, b, blocks.len(), reg, base, depth);
    let e = extraction(c, w, reg, base, depth);
    assert(e == blocks_extraction(
        blocks,
        blocks.len(),
        c,
        inherited_from(c, w),
        w.args_complete,
        reg,
        base,
        depth,
    ));
    let j = choose|j: int|
        0 <= j < e.commands.len() && is_inner(#[trigger] e.commands[j], blocks[b]->elements, c, w);
    assert(is_inner(extraction(c, w, reg, base, depth).commands[j], blocks[b]->elements, c, w));
}

/// A command of a text that a wrapper runs, as it stands there.
pub open spec fn as_written(d: CommandModel) -> CommandModel {
    CommandModel {
        effective_user: EffectiveModel::Unchanged,
        effective_host: EffectiveModel::Unchanged,
        effective_cwd: EffectiveModel::Unchanged,
        parent: None,
        ..d
    }
}

/// A wrapper whose `inner` yields a text wraps every command that stands in it,
/// and they run with what the wrapper hands on.
pub proof fn every_command_of_a_text_is_extracted(
    c: CommandModel,
    w: WrapperModel,
    text: Seq<char>,
    script: Script,
    p: PlainCommand,
    piped: bool,
    reg: Seq<WrapperModel>,
    base: Seq<WrapperModel>,
    depth: nat,
)
    requires
        depth > 0,
        eval(w.inner, wrapper_context(c, w)) == Tri::Text(text),
        !has_expansion(unquoted(text)),
        script_of(unquoted(text)) == Ok::<Script, Seq<char>>(script),
        p.word_or_name is Some,
        in_script(p, piped, script),
    ensures
        extraction(c, w, reg, base, depth).found,
        exists|j: int|
            {
                let d = #[trigger] extraction(c, w, reg, base, depth).commands[j];
                let ctx = wrapper_context(c, w);
                &&& 0 <= j < extraction(c, w, reg, base, depth).commands.len()
                &&& is_entry(as_written(d), p, piped)
                &&& d.parent == Some(Box::new(c))
                &&& is_handed_on(d.effective_user, c.effective_user, w.capture_user, ctx)
                &&& is_handed_on(d.effective_host, c.effective_host, w.capture_host, ctx)
            },
{
    let commands = text_commands(unquoted(text), reg, base, depth);
    every_command_is_found(p, piped, script, reg, base, (depth - 1) as nat);
    let j = choose|j: int| 0 <= j < commands.len() && is_entry(#[trigger] commands[j], p, piped);
    let d = extraction(c, w, reg, base, depth).commands[j];
    assert(as_written(d) == commands[j]);
}

/// A wrapper whose `inner` yields neither a list nor a text, or a text with an
/// expansion in it, wraps nothing that is known.
pub proof fn nothing_is_made_up(
    c: CommandModel,
    w: WrapperModel,
    reg: Seq<WrapperModel>,
    base: Seq<WrapperModel>,
    depth: nat,
)
    requires
        match eval(w.inner, wrapper_context(c, w)) {
            Tri::List { elements, .. } => elements.len() == 0,
            Tri::Text(text) => has_expansion(unquoted(text)) || script_of(unquoted(text)) is Err,
            _ => true,
        },
    ensures
        !extraction(c, w, reg, base, depth).found,
        extraction(c, w, reg, base, depth).commands.len() == 0,
{
}

/// The commands of a command substitution in a word are found with the command
/// that the word belongs to.
pub proof fn substituted_commands_are_found(
    p: PlainCommand,
    piped: bool,
    items: Vec<CommandPart>,
    i: int,
    pieces: Vec<WordPart>,
    j: int,
    text: Seq<char>,
    script: Script,
    reg: Seq<WrapperModel>,
    base: Seq<WrapperModel>,
    depth: nat,
    k: int,
)
    requires
        depth >= 3,
        p.word_or_name is Some,
        p.suffix == Some(items) || p.prefix == Some(items),
        0 <= i < items@.len(),
        items@[i] is Word,
        parsed_word(items@[i]->Word_0@) == Some(pieces),
        0 <= j < pieces@.len(),
        (pieces@[j] matches WordPart::CommandSubstitution(t) && t@ == text) || (
        pieces@[j] matches WordPart::BackquotedSubstitution(t) && t@ == text),
        script_of(text) == Ok::<Script, Seq<char>>(script),
        0 <= k < script_commands(script, base, base, (depth - 3) as nat).len(),
    ensures
        simple_commands(p, piped, reg, base, depth).contains(
            script_commands(script, base, base, (depth - 3) as nat)[k],
        ),
{
    let d = script_commands(script, base, base, (depth - 3) as nat)[k];
    piece_in_pieces(pieces, j, pieces@.len(), text, base, (depth - 1) as nat, d);
    word_in_items(items, i, items@.len(), reg, base, depth, d);
    let c = written_command(p, (p.word_or_name->0)@, piped);
    let own = wrapped_commands(c, reg, base, (depth - 1) as nat);
    let suffix = optional_items_commands(p.suffix, reg, base, depth);
    let prefix = optional_items_commands(p.prefix, reg, base, depth);
    if p.suffix == Some(items) {
        held_in_part(own, suffix, d);
        held_in_part(own + suffix, prefix, d);
    } else {
        held_in_part(own + suffix, prefix, d);
    }
}

/// What one of two parts holds, both together hold.
proof fn held_in_part(a: Seq<CommandModel>, b: Seq<CommandModel>, d: CommandModel)
    requires
        a.contains(d) || b.contains(d),
    ensures
        (a + b).contains(d),
{
    if a.contains(d) {
        let k = choose|k: int| 0 <= k < a.len() && a[k] == d;
        assert((a + b)[k] == d);
    } else {
        let k = choose|k: int| 0 <= k < b.len() && b[k] == d;
        assert((a + b)[a.len() + k] == d);
    }
}

proof fn piece_in_pieces(
    pieces: Vec<WordPart>,
    j: int,
    n: nat,
    text: Seq<char>,
    base: Seq<WrapperModel>,
    depth: nat,
    d: CommandModel,
)
    requires
        depth >= 2,
        0 <= j < n <= pieces@.len(),
        (pieces@[j] matches WordPart::CommandSubstitution(t) && t@ == text) || (
        pieces@[j] matches WordPart::BackquotedSubstitution(t) && t@ == text),
        script_of(text) is Ok,
        script_commands(script_of(text)->Ok_0, base, base, (depth - 2) as nat).contains(d),
    ensures
        pieces_commands(pieces, n, base, depth).contains(d),
    decreases n,
{
    let before = pieces_commands(pieces, (n - 1) as nat, base, depth);
    let all = pieces_commands(pieces, n, base, depth);
    let here = all.subrange(before.len() as int, all.len() as int);
    assert(all =~= before + here);
    if j < n - 1 {
        piece_in_pieces(pieces, j, (n - 1) as nat, text, base, depth, d);
    } else {
        assert(here =~= text_commands(text, base, base, (depth - 1) as nat));
    }
    held_in_part(before, here, d);
}

proof fn word_in_items(
    items: Vec<CommandPart>,
    i: int,
    n: nat,
    reg: Seq<WrapperModel>,
    base: Seq<WrapperModel>,
    depth: nat,
    d: CommandModel,
)
    requires
        depth > 0,
        0 <= i < n <= items@.len(),
        items@[i] is Word,
        parsed_word(items@[i]->Word_0@) matches Some(pieces) && pieces_commands(
            pieces,
            pieces@.len(),
            base,
            (depth - 1) as nat,
        ).contains(d),
    ensures
        items_commands(items, n, reg, base, depth).contains(d),
    decreases n,
{
    let before = items_commands(items, (n - 1) as nat, reg, base, depth);
    let all = items_commands(items, n, reg, base, depth);
    let here = all.subrange(before.len() as int, all.len() as int);
    assert(all =~= before + here);
    if i < n - 1 {
        word_in_items(items, i, (n - 1) as nat, reg, base, depth, d);
    } else {
        let pieces = parsed_word(items@[i]->Word_0@)->0;
        assert(here =~= pieces_commands(pieces, pieces@.len(), base, (depth - 1) as nat));
    }
    held_in_part(before, here, d);
}

/// What a wrapper's expressions see of a command: its name and arguments as they
/// were written, whether those are all, and its options as the wrapper declares
/// them.
pub proof fn wrapper_sees_the_command(c: CommandModel, w: WrapperModel, m: Map<Seq<char>, Tri>)
    requires
        wrapper_context(c, w).dom().contains("command"@),
        wrapper_context(c, w)["command"@] == Tri::Object(m),
    ensures
        lookup(m, "name"@) == Tri::Text(c.name),
        lookup(m, "args"@) matches Tri::List { elements, exhaustive } && exhaustive
            == c.args_complete && elements.len() == c.args.len() && forall|i: int|
            0 <= i < c.args.len() ==> elements[i] == Tri::Text(#[trigger] c.args[i]),
        w.getopt is None ==> lookup(m, "getopt"@) is Null,
        w.getopt matches Some((style, options)) ==> lookup(m, "getopt"@) == parsed(
            Seq::new(c.args.len(), |i: int| Tri::Text(c.args[i])),
            style,
            options,
            c.args_complete,
        ).as_tri(),
{
    reveal_strlit("name");
    reveal_strlit("args");
    reveal_strlit("getopt");
    assert("name"@.len() == 4 && "name"@[0] == 'n' && "args"@.len() == 4 && "args"@[0] == 'a'
        && "getopt"@.len() == 6);
}

} // verus!
