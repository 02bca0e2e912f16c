//! Three-valued evaluation of policy rules.
//!
//! An expression evaluates to a three-valued value. A rule matches where its
//! expression is definitely true; the first rule that matches decides.

use super::builtins::{builtin, call_builtin, eval_field_access, field_value, lookup};
use super::cel::{mentions_command_field, references_command_field, parse_cel, cel_of, CelCall, CelEntry, CelExpr, CelFold, CelLiteral};
use super::config::TaggedRule;
use super::parse::{redirects_of, CommandInfo, CommandModel, Effective, EffectiveModel, InnerExtraction, RedirectInfo, RedirectModel};
use super::path::{resolve_path, resolved_path};
use super::value::{clone_from, tri_unfold, tris, tris_push, truth, Tri};
use super::{Decision, PaneContext, PaneModel, PolicyResult};
use crate::mcp::{middle_is_told, tells};
use crate::shell::{has_expansion, word_has_expansion};
use crate::text::{opt_text, str_eq, texts};
use vstd::prelude::*;
use vstd::string::StringExecFns;

pub use super::value::{TriBool, TriMap, TriVal};

verus! {

broadcast use tri_unfold;

/// The value of a literal.
pub open spec fn literal_value(l: CelLiteral) -> Tri {
    match l {
        CelLiteral::Text(s) => Tri::Text(s@),
        CelLiteral::Int(n) => Tri::Int(n as int),
        CelLiteral::Bool(b) => Tri::Bool(b),
        CelLiteral::Null => Tri::Null,
        CelLiteral::Other => Tri::Unknown,
    }
}

/// The value of an expression under the bindings `ctx`. A comprehension over a
/// list that may go on is unknown, unless its loop condition says that nothing
/// further can change it.
pub open spec fn eval(e: CelExpr, ctx: Map<Seq<char>, Tri>) -> Tri
    decreases e, 0nat,
{
    match e {
        CelExpr::Ident(name) => lookup(ctx, name@),
        CelExpr::Literal(l) => literal_value(l),
        CelExpr::Select { operand, field } => field_value(eval(*operand, ctx), field@),
        CelExpr::List(v) => Tri::List { elements: eval_all(v, ctx), exhaustive: true },
        CelExpr::Call(c) => eval_apply(c, ctx),
        CelExpr::Fold(f) => match eval(f.iter_range, ctx) {
            Tri::List { elements, exhaustive } => {
                let folded = fold_from(*f, elements, 0, eval(f.accu_init, ctx), ctx);
                let settled = truth(eval(f.loop_cond, ctx.insert(f.accu_var@, folded)))
                    == TriBool::False;
                let accu = if exhaustive || settled {
                    folded
                } else {
                    Tri::Unknown
                };
                eval(f.result, ctx.insert(f.accu_var@, accu))
            },
            _ => Tri::Unknown,
        },
        CelExpr::Record(entries) => Tri::Object(record_of(entries, entries@.len(), ctx)),
        CelExpr::Other => Tri::Unknown,
    }
}

/// The values of several expressions.
pub open spec fn eval_all(v: Vec<CelExpr>, ctx: Map<Seq<char>, Tri>) -> Seq<Tri>
    decreases v, 0nat,
{
    Seq::new(
        v@.len(),
        |i: int|
            if 0 <= i < v@.len() {
                eval(v@[i], ctx)
            } else {
                Tri::Null
            },
    )
}

/// The value of a call. `dropwhile(list, var, predicate)` binds its variable;
/// every other function sees the values of its arguments.
pub open spec fn eval_apply(c: CelCall, ctx: Map<Seq<char>, Tri>) -> Tri
    decreases c, 0nat,
{
    let target = match c.target {
        Some(t) => Some(eval(*t, ctx)),
        None => None,
    };
    if c.func_name@ == "dropwhile"@ {
        if c.args@.len() == 3 {
            match (eval(c.args@[0], ctx), c.args@[1]) {
                (Tri::List { elements, .. }, CelExpr::Ident(var)) => {
                    let k = matching_prefix(c.args@[2], var@, elements, 0, ctx);
                    Tri::List {
                        elements: elements.subrange(k, elements.len() as int),
                        exhaustive: true,
                    }
                },
                (Tri::Unknown, _) => Tri::Unknown,
                (_, CelExpr::Ident(_)) => Tri::Null,
                _ => Tri::Unknown,
            }
        } else {
            Tri::Unknown
        }
    } else {
        builtin(c.func_name@, target, eval_all(c.args, ctx), ctx)
    }
}

/// The accumulator after the elements from `i` on.
pub open spec fn fold_from(
    f: CelFold,
    elements: Seq<Tri>,
    i: int,
    accu: Tri,
    ctx: Map<Seq<char>, Tri>,
) -> Tri
    decreases f, (if i < elements.len() { elements.len() - i } else { 0 }) as nat,
{
    if i < 0 || i >= elements.len() {
        accu
    } else {
        let bound = ctx.insert(f.accu_var@, accu);
        if truth(eval(f.loop_cond, bound)) == TriBool::False {
            accu
        } else {
            fold_from(
                f,
                elements,
                i + 1,
                eval(f.loop_step, bound.insert(f.iter_var@, elements[i])),
                ctx,
            )
        }
    }
}

/// The place of the first element at or after `i` for which the predicate is
/// not definitely true; the length where it always is.
pub open spec fn matching_prefix(
    predicate: CelExpr,
    var: Seq<char>,
    elements: Seq<Tri>,
    i: int,
    ctx: Map<Seq<char>, Tri>,
) -> int
    decreases predicate, (if i < elements.len() { elements.len() - i } else { 0 }) as nat,
{
    if i < 0 || i >= elements.len() {
        elements.len() as int
    } else if truth(eval(predicate, ctx.insert(var, elements[i]))) != TriBool::True {
        i
    } else {
        matching_prefix(predicate, var, elements, i + 1, ctx)
    }
}

/// The map that the first `n` entries of a map literal make: those whose key is
/// a text.
pub open spec fn record_of(
    entries: Vec<CelEntry>,
    n: nat,
    ctx: Map<Seq<char>, Tri>,
) -> Map<Seq<char>, Tri>
    decreases entries, n,
{
    if n == 0 || n > entries@.len() {
        Map::empty()
    } else {
        let before = record_of(entries, (n - 1) as nat, ctx);
        match entries@[n - 1] {
            CelEntry::Pair { key, value } => match eval(key, ctx) {
                Tri::Text(k) => before.insert(k, eval(value, ctx)),
                _ => before,
            },
            CelEntry::Field => before,
        }
    }
}

/// The value of a literal.
fn literal_to_trival(l: &CelLiteral) -> (r: TriVal)
    ensures
        r@ == literal_value(*l),
{
    match l {
        CelLiteral::Text(s) => TriVal::String(s.clone()),
        CelLiteral::Int(n) => TriVal::Int(*n),
        CelLiteral::Bool(b) => TriVal::Bool(*b),
        CelLiteral::Null => TriVal::Null,
        CelLiteral::Other => TriVal::Unknown,
    }
}

/// Evaluate an expression under the bindings `ctx`.
pub fn eval_expr(expr: &CelExpr, ctx: &TriMap) -> (r: TriVal)
    ensures
        r@ == eval(*expr, ctx@),
    decreases expr, 0nat,
{
    match expr {
        CelExpr::Ident(name) => match ctx.get(name.as_str()) {
            Some(v) => v.clone(),
            None => TriVal::Unknown,
        },
        CelExpr::Literal(l) => literal_to_trival(l),
        CelExpr::Select { operand, field } => {
            let value = eval_expr(operand, ctx);
            eval_field_access(&value, field.as_str())
        },
        CelExpr::List(v) => {
            let elements = eval_list(v, ctx);
            TriVal::List { elements, exhaustive: true }
        },
        CelExpr::Call(c) => eval_call(c, ctx),
        CelExpr::Fold(f) => eval_comprehension(f, ctx),
        CelExpr::Record(entries) => TriVal::Object(eval_record(entries, ctx)),
        CelExpr::Other => TriVal::Unknown,
    }
}

/// Evaluate several expressions.
fn eval_list(v: &Vec<CelExpr>, ctx: &TriMap) -> (r: Vec<TriVal>)
    ensures
        tris(r@) == eval_all(*v, ctx@),
    decreases v, 0nat,
{
    let mut out: Vec<TriVal> = Vec::new();
    let mut i: usize = 0;
    while i < v.len()
        invariant
            i <= v@.len(),
            out@.len() == i,
            forall|j: int| 0 <= j < i ==> (#[trigger] out@[j])@ == eval(v@[j], ctx@),
        decreases v@.len() - i,
    {
        let e = eval_expr(&v[i], ctx);
        out.push(e);
        i = i + 1;
    }
    assert(tris(out@) =~= eval_all(*v, ctx@));
    out
}

/// Evaluate a map literal.
fn eval_record(entries: &Vec<CelEntry>, ctx: &TriMap) -> (r: TriMap)
    ensures
        r@ == record_of(*entries, entries@.len(), ctx@),
    decreases entries, 0nat,
{
    let mut out = TriMap::new();
    let mut i: usize = 0;
    while i < entries.len()
        invariant
            i <= entries@.len(),
            out@ == record_of(*entries, i as nat, ctx@),
        decreases entries@.len() - i,
    {
        if let CelEntry::Pair { key, value } = &entries[i] {
            assert(decreases_to!(entries => entries[i as int]));
            let k = eval_expr(key, ctx);
            let v = eval_expr(value, ctx);
            if let TriVal::String(name) = k {
                out.insert(name, v);
            }
        }
        i = i + 1;
    }
    out
}

/// Evaluate a call.
fn eval_call(c: &CelCall, ctx: &TriMap) -> (r: TriVal)
    ensures
        r@ == eval_apply(*c, ctx@),
    decreases c, 1nat,
{
    if str_eq(c.func_name.as_str(), "dropwhile") {
        return eval_dropwhile(c, ctx);
    }
    let target: Option<TriVal> = match &c.target {
        Some(t) => Some(eval_expr(t, ctx)),
        None => None,
    };
    let args = eval_list(&c.args, ctx);
    call_builtin(c.func_name.as_str(), &target, args.as_slice(), ctx)
}

/// Evaluate `dropwhile(list, var, predicate)`: skip the leading elements for
/// which the predicate is true.
fn eval_dropwhile(c: &CelCall, ctx: &TriMap) -> (r: TriVal)
    requires
        c.func_name@ == "dropwhile"@,
    ensures
        r@ == eval_apply(*c, ctx@),
    decreases c, 0nat,
{
    if c.args.len() != 3 {
        return TriVal::Unknown;
    }
    let list = eval_expr(&c.args[0], ctx);
    let var = match &c.args[1] {
        CelExpr::Ident(name) => name,
        _ => {
            return TriVal::Unknown;
        },
    };
    match &list {
        TriVal::List { elements, .. } => {
            let ghost all = tris(elements@);
            let mut k: usize = 0;
            while k < elements.len()
                invariant_except_break
                    matching_prefix(c.args@[2], var@, all, 0, ctx@) == matching_prefix(
                        c.args@[2],
                        var@,
                        all,
                        k as int,
                        ctx@,
                    ),
                invariant
                    k <= elements@.len(),
                    all == tris(elements@),
                    c.args@.len() == 3,
                ensures
                    matching_prefix(c.args@[2], var@, all, 0, ctx@) == k,
                decreases elements@.len() - k,
            {
                let mut inner = ctx.clone();
                inner.insert(var.clone(), elements[k].clone());
                assert(all[k as int] == elements@[k as int]@);
                let holds = eval_expr(&c.args[2], &inner);
                if holds.is_truthy() != TriBool::True {
                    break;
                }
                k = k + 1;
            }
            let rest = clone_from(elements.as_slice(), k);
            TriVal::List { elements: rest, exhaustive: true }
        },
        TriVal::Unknown => TriVal::Unknown,
        _ => TriVal::Null,
    }
}

/// Evaluate a comprehension (`exists`, `all`, `map`, `filter`).
fn eval_comprehension(f: &CelFold, ctx: &TriMap) -> (r: TriVal)
    ensures
        r@ == eval(CelExpr::Fold(Box::new(*f)), ctx@),
    decreases f, 0nat,
{
    let collection = eval_expr(&f.iter_range, ctx);
    match &collection {
        TriVal::List { elements, exhaustive } => {
            let ghost all = tris(elements@);
            let mut accu = eval_expr(&f.accu_init, ctx);
            let ghost start = accu@;
            let mut i: usize = 0;
            while i < elements.len()
                invariant_except_break
                    fold_from(*f, all, 0, start, ctx@) == fold_from(
                        *f,
                        all,
                        i as int,
                        accu@,
                        ctx@,
                    ),
                invariant
                    i <= elements@.len(),
                    all == tris(elements@),
                ensures
                    fold_from(*f, all, 0, start, ctx@) == accu@,
                decreases elements@.len() - i,
            {
                let mut inner = ctx.clone();
                inner.insert(f.accu_var.clone(), accu.clone());
                let cond = eval_expr(&f.loop_cond, &inner);
                if cond.is_truthy() == TriBool::False {
                    break;
                }
                inner.insert(f.iter_var.clone(), elements[i].clone());
                assert(all[i as int] == elements@[i as int]@);
                accu = eval_expr(&f.loop_step, &inner);
                i = i + 1;
            }
            if !*exhaustive {
                let mut last = ctx.clone();
                last.insert(f.accu_var.clone(), accu.clone());
                if eval_expr(&f.loop_cond, &last).is_truthy() != TriBool::False {
                    accu = TriVal::Unknown;
                }
            }
            let mut outer = ctx.clone();
            outer.insert(f.accu_var.clone(), accu);
            eval_expr(&f.result, &outer)
        },
        _ => TriVal::Unknown,
    }
}

/// A rule ready for evaluation.
#[derive(Debug)]
pub struct CompiledRule {
    pub description: String,
    pub ast: CelExpr,
    pub action: Decision,
    pub message: Option<String>,
    /// The expression selects `command.effective_user`: an `allow` is not tied
    /// to the pane's user.
    pub privilege_aware: bool,
    /// The expression selects `command.effective_host`: an `allow` is not tied
    /// to the pane's host.
    pub host_aware: bool,
    /// Yields the directory in which later commands run.
    pub capture_cwd: Option<CelExpr>,
}

/// Rules in the order in which they are tried.
#[derive(Debug)]
pub struct RuleSet {
    pub rules: Vec<CompiledRule>,
    pub default: Decision,
    /// Directories considered in-project, relative to the pane's directory.
    pub project_dirs: Vec<String>,
}

/// The decision that an action names.
pub open spec fn action_of(action: Seq<char>) -> Option<Decision> {
    if action == "allow"@ {
        Some(Decision::Allow)
    } else if action == "deny"@ {
        Some(Decision::Deny)
    } else if action == "ask"@ {
        Some(Decision::Ask)
    } else {
        None
    }
}

/// Why a rule does not compile; `None` where it does.
pub open spec fn rule_error(rule: TaggedRule) -> Option<Seq<char>> {
    let description = rule.config.description@;
    match cel_of(rule.config.when@) {
        Err(e) => Some("CEL parse error in rule '"@ + description + "': "@ + e),
        Ok(_) => if action_of(rule.config.action@) is None {
            Some(
                "Invalid action '"@ + rule.config.action@ + "' in rule '"@ + description
                    + "' (must be allow/ask/deny)"@,
            )
        } else {
            match opt_text(rule.config.capture_cwd) {
                Some(text) => match cel_of(text) {
                    Err(e) => Some("CEL parse error in capture_cwd of rule '"@ + description + "': "@ + e),
                    Ok(_) => None,
                },
                None => None,
            }
        },
    }
}

/// Whether `c` is the compiled form of `rule`.
pub open spec fn compiled_from(c: CompiledRule, rule: TaggedRule) -> bool {
    &&& rule_error(rule) is None
    &&& cel_of(rule.config.when@) == Ok::<CelExpr, Seq<char>>(c.ast)
    &&& action_of(rule.config.action@) == Some(c.action)
    &&& c.description@ == rule.config.description@
    &&& opt_text(c.message) == opt_text(rule.config.message)
    &&& c.privilege_aware == mentions_command_field(c.ast, "effective_user"@)
    &&& c.host_aware == mentions_command_field(c.ast, "effective_host"@)
    &&& match opt_text(rule.config.capture_cwd) {
        Some(text) => c.capture_cwd matches Some(e) && cel_of(text) == Ok::<
            CelExpr,
            Seq<char>,
        >(e),
        None => c.capture_cwd is None,
    }
}

/// The decision that an action names.
fn parse_action(action: &str) -> (r: Option<Decision>)
    ensures
        r == action_of(action@),
{
    if str_eq(action, "allow") {
        Some(Decision::Allow)
    } else if str_eq(action, "deny") {
        Some(Decision::Deny)
    } else if str_eq(action, "ask") {
        Some(Decision::Ask)
    } else {
        None
    }
}

/// Compile one rule.
fn compile_rule(rule: &TaggedRule) -> (r: Result<CompiledRule, String>)
    ensures
        match r {
            Ok(c) => compiled_from(c, *rule),
            Err(m) => rule_error(*rule) == Some(m@),
        },
{
    let ast = match parse_cel(rule.config.when.as_str()) {
        Ok(ast) => ast,
        Err(e) => {
            let mut m = "CEL parse error in rule '".to_owned();
            m.append(rule.config.description.as_str());
            m.append("': ");
            m.append(e.as_str());
            return Err(m);
        },
    };
    let action = match parse_action(rule.config.action.as_str()) {
        Some(a) => a,
        None => {
            let mut m = "Invalid action '".to_owned();
            m.append(rule.config.action.as_str());
            m.append("' in rule '");
            m.append(rule.config.description.as_str());
            m.append("' (must be allow/ask/deny)");
            return Err(m);
        },
    };
    let capture_cwd = match &rule.config.capture_cwd {
        Some(text) => match parse_cel(text.as_str()) {
            Ok(e) => Some(e),
            Err(e) => {
                let mut m = "CEL parse error in capture_cwd of rule '".to_owned();
                m.append(rule.config.description.as_str());
                m.append("': ");
                m.append(e.as_str());
                return Err(m);
            },
        },
        None => None,
    };
    let privilege_aware = references_command_field(&ast, "effective_user");
    let host_aware = references_command_field(&ast, "effective_host");
    Ok(
        CompiledRule {
            description: rule.config.description.clone(),
            ast,
            action,
            message: rule.config.message.clone(),
            privilege_aware,
            host_aware,
            capture_cwd,
        },
    )
}

/// Compile rules. The first rule that does not compile gives the error.
pub fn compile(tagged_rules: &[TaggedRule], default: Decision) -> (r: Result<RuleSet, String>)
    ensures
        match r {
            Ok(set) => {
                &&& set.default == default
                &&& texts(set.project_dirs@) == seq!["."@]
                &&& set.rules@.len() == tagged_rules@.len()
                &&& forall|i: int|
                    0 <= i < tagged_rules@.len() ==> compiled_from(
                        #[trigger] set.rules@[i],
                        tagged_rules@[i],
                    )
            },
            Err(m) => exists|i: int|
                0 <= i < tagged_rules@.len() && rule_error(#[trigger] tagged_rules@[i]) == Some(m@)
                    && forall|j: int|
                    0 <= j < i ==> rule_error(#[trigger] tagged_rules@[j]) is None,
        },
{
    let mut rules: Vec<CompiledRule> = Vec::new();
    let mut i: usize = 0;
    while i < tagged_rules.len()
        invariant
            i <= tagged_rules@.len(),
            rules@.len() == i,
            forall|j: int|
                0 <= j < i ==> compiled_from(#[trigger] rules@[j], tagged_rules@[j]),
        decreases tagged_rules@.len() - i,
    {
        match compile_rule(&tagged_rules[i]) {
            Ok(c) => rules.push(c),
            Err(m) => {
                assert forall|j: int| 0 <= j < i implies rule_error(
                    #[trigger] tagged_rules@[j],
                ) is None by {
                    assert(compiled_from(rules@[j], tagged_rules@[j]));
                }
                assert(rule_error(tagged_rules@[i as int]) == Some(m@));
                return Err(m);
            },
        }
        i = i + 1;
    }
    let mut project_dirs: Vec<String> = Vec::new();
    project_dirs.push(".".to_owned());
    assert(texts(project_dirs@) =~= seq!["."@]);
    Ok(RuleSet { rules, default, project_dirs })
}

/// An optional text as a value: null where there is none.
pub open spec fn opt_value(s: Option<Seq<char>>) -> Tri {
    match s {
        Some(t) => Tri::Text(t),
        None => Tri::Null,
    }
}

/// A value that a wrapper may have changed, in a pane where it is `unchanged`.
pub open spec fn effective_value(e: EffectiveModel, unchanged: Option<Seq<char>>) -> Tri {
    match e {
        EffectiveModel::Unchanged => opt_value(unchanged),
        EffectiveModel::Known(s) => Tri::Text(s),
        EffectiveModel::Unknown => Tri::Unknown,
    }
}

/// The targets of the write or read redirects, in order; unknown where a target
/// expands.
pub open spec fn targets(redirects: Seq<RedirectModel>, write: bool) -> Seq<Tri>
    decreases redirects.len(),
{
    if redirects.len() == 0 {
        Seq::empty()
    } else {
        let before = targets(redirects.drop_last(), write);
        let last = redirects.last();
        if last.is_write != write {
            before
        } else if last.has_expansion {
            before.push(Tri::Unknown)
        } else {
            before.push(Tri::Text(last.target))
        }
    }
}

/// The options of a command, as a policy expression sees them. Where further
/// arguments are possible, options can be among them.
pub open spec fn options_value(c: CommandModel) -> Tri {
    match c.getopt {
        Some(g) => if c.args_complete {
            g
        } else {
            Tri::Unknown
        },
        None => Tri::Null,
    }
}

/// The bindings of `command`, as a policy expression sees a command.
pub open spec fn command_value(c: CommandModel, pane: PaneModel) -> Tri
    decreases c,
{
    Tri::Object(
        Map::empty().insert("name"@, Tri::Text(c.name)).insert(
            "args"@,
            Tri::List {
                elements: Seq::new(c.args.len(), |i: int| Tri::Text(c.args[i])),
                exhaustive: c.args_complete,
            },
        ).insert("args_complete"@, Tri::Bool(c.args_complete)).insert(
            "is_pipe_target"@,
            Tri::Bool(c.is_pipe_target),
        ).insert("has_inner"@, Tri::Bool(c.inner != InnerExtraction::NotExtracted)).insert(
            "effective_user"@,
            effective_value(c.effective_user, pane.user),
        ).insert("effective_host"@, effective_value(c.effective_host, pane.hostname)).insert(
            "write_targets"@,
            Tri::List { elements: targets(c.redirects, true), exhaustive: true },
        ).insert(
            "read_targets"@,
            Tri::List { elements: targets(c.redirects, false), exhaustive: true },
        ).insert(
            "parent"@,
            match c.parent {
                Some(p) => command_value(*p, pane),
                None => Tri::Null,
            },
        ).insert("getopt"@, options_value(c)),
    )
}

/// The project directories, resolved in a pane.
pub open spec fn resolved_dirs(
    dirs: Seq<Seq<char>>,
    cwd: Seq<char>,
    user: Option<Seq<char>>,
) -> Seq<Tri>
    decreases dirs.len(),
{
    if dirs.len() == 0 {
        Seq::empty()
    } else {
        let before = resolved_dirs(dirs.drop_last(), cwd, user);
        match resolved_path(dirs.last(), cwd, user) {
            Some(p) => before.push(Tri::Text(p)),
            None => before,
        }
    }
}

/// The bindings of `pane`, as a policy expression sees a pane.
pub open spec fn pane_value(pane: PaneModel, project_dirs: Seq<Seq<char>>) -> Tri {
    Tri::Object(
        Map::empty().insert("hostname"@, opt_value(pane.hostname)).insert(
            "cwd"@,
            effective_value(pane.moved, pane.cwd),
        ).insert("foreground"@, opt_value(pane.foreground)).insert("user"@, opt_value(pane.user)).insert(
            "project_dirs"@,
            match pane.cwd {
                Some(cwd) => Tri::List {
                    elements: resolved_dirs(project_dirs, cwd, pane.user),
                    exhaustive: true,
                },
                None => Tri::Unknown,
            },
        ),
    )
}

/// The bindings that a rule is evaluated under.
pub open spec fn context_of(
    c: CommandModel,
    pane: PaneModel,
    project_dirs: Seq<Seq<char>>,
) -> Map<Seq<char>, Tri> {
    Map::empty().insert("command"@, command_value(c, pane)).insert(
        "pane"@,
        pane_value(pane, project_dirs),
    )
}

/// Whether a value is the pane's own.
pub open spec fn same_context(e: EffectiveModel, pane: Option<Seq<char>>) -> bool {
    match e {
        EffectiveModel::Unchanged => true,
        EffectiveModel::Known(s) => pane == Some(s),
        EffectiveModel::Unknown => false,
    }
}

/// Whether a rule decides a command: its expression is definitely true, and an
/// `allow` leaves user and host as they are unless the expression selects them.
pub open spec fn applies(
    rule: CompiledRule,
    c: CommandModel,
    pane: PaneModel,
    ctx: Map<Seq<char>, Tri>,
) -> bool {
    &&& truth(eval(rule.ast, ctx)) == TriBool::True
    &&& rule.action == Decision::Allow ==> {
        &&& rule.privilege_aware || same_context(c.effective_user, pane.user)
        &&& rule.host_aware || same_context(c.effective_host, pane.hostname)
    }
}

/// The name of a rule with its message.
pub open spec fn rule_text(rule: CompiledRule) -> Seq<char> {
    match opt_text(rule.message) {
        Some(m) => rule.description@ + ": "@ + m,
        None => rule.description@,
    }
}

/// The first rule at or after `i` that decides a command; the number of rules
/// where none does.
pub open spec fn first_applying(
    rules: Seq<CompiledRule>,
    i: int,
    c: CommandModel,
    pane: PaneModel,
    ctx: Map<Seq<char>, Tri>,
) -> int
    decreases rules.len() - i,
{
    if i < 0 || i >= rules.len() {
        rules.len() as int
    } else if applies(rules[i], c, pane, ctx) {
        i
    } else {
        first_applying(rules, i + 1, c, pane, ctx)
    }
}

/// What the rules say about a command, and the rule that says so.
pub open spec fn verdict(c: CommandModel, pane: PaneModel, set: RuleSet) -> (Decision, Seq<char>) {
    let ctx = context_of(c, pane, texts(set.project_dirs@));
    let i = first_applying(set.rules@, 0, c, pane, ctx);
    if i < set.rules@.len() {
        (set.rules@[i].action, rule_text(set.rules@[i]))
    } else {
        (set.default, "default"@)
    }
}

/// The directory to which a captured value moves: one that cannot be known where
/// the value is unknown or holds an expansion. A value that is no text leaves it
/// as it is.
pub open spec fn captured_cwd(value: Tri, moved: EffectiveModel) -> EffectiveModel {
    match value {
        Tri::Text(s) => if has_expansion(s) {
            EffectiveModel::Unknown
        } else {
            EffectiveModel::Known(s)
        },
        Tri::Unknown => EffectiveModel::Unknown,
        _ => moved,
    }
}

/// The pane as a command leaves it for those after it: the rule that decides the
/// command may capture another directory.
pub open spec fn pane_after(c: CommandModel, pane: PaneModel, set: RuleSet) -> PaneModel {
    let ctx = context_of(c, pane, texts(set.project_dirs@));
    let i = first_applying(set.rules@, 0, c, pane, ctx);
    if i < set.rules@.len() {
        match set.rules@[i].capture_cwd {
            Some(e) => PaneModel { moved: captured_cwd(eval(e, ctx), pane.moved), ..pane },
            None => pane,
        }
    } else {
        pane
    }
}

/// An optional text as a value.
fn option_to_trival(s: &Option<String>) -> (r: TriVal)
    ensures
        r@ == opt_value(opt_text(*s)),
{
    match s {
        Some(t) => TriVal::String(t.clone()),
        None => TriVal::Null,
    }
}

/// A value that a wrapper may have changed, in a pane where it is `unchanged`.
fn effective_to_trival(e: &Effective, unchanged: &Option<String>) -> (r: TriVal)
    ensures
        r@ == effective_value(e@, opt_text(*unchanged)),
{
    match e {
        Effective::Unchanged => option_to_trival(unchanged),
        Effective::Known(s) => TriVal::String(s.clone()),
        Effective::Unknown => TriVal::Unknown,
    }
}

/// Texts as values.
pub fn strings_to_trivals(v: &[String]) -> (r: Vec<TriVal>)
    ensures
        tris(r@) == Seq::new(texts(v@).len(), |i: int| Tri::Text(texts(v@)[i])),
{
    let mut out: Vec<TriVal> = Vec::new();
    let mut i: usize = 0;
    while i < v.len()
        invariant
            i <= v@.len(),
            out@.len() == i,
            forall|j: int| 0 <= j < i ==> (#[trigger] out@[j])@ == Tri::Text(v@[j]@),
        decreases v@.len() - i,
    {
        out.push(TriVal::String(v[i].clone()));
        i = i + 1;
    }
    assert(tris(out@) =~= Seq::new(texts(v@).len(), |i: int| Tri::Text(texts(v@)[i])));
    out
}

/// The targets of the write or read redirects.
fn redirect_targets(redirects: &[RedirectInfo], write: bool) -> (r: Vec<TriVal>)
    ensures
        tris(r@) == targets(redirects_of(redirects@), write),
{
    let ghost all = redirects_of(redirects@);
    let mut out: Vec<TriVal> = Vec::new();
    let mut i: usize = 0;
    assert(all.subrange(0, 0) =~= Seq::<RedirectModel>::empty());
    assert(tris(out@) =~= Seq::<Tri>::empty());
    while i < redirects.len()
        invariant
            i <= redirects@.len(),
            all == redirects_of(redirects@),
            tris(out@) == targets(all.subrange(0, i as int), write),
        decreases redirects@.len() - i,
    {
        let ghost upto = all.subrange(0, i + 1);
        assert(upto.drop_last() =~= all.subrange(0, i as int));
        assert(upto.last() == redirects@[i as int]@);
        let redirect = &redirects[i];
        if redirect.is_write == write {
            let target = if redirect.has_expansion {
                TriVal::Unknown
            } else {
                TriVal::String(redirect.target.clone())
            };
            proof {
                tris_push(out@, target);
            }
            out.push(target);
        }
        i = i + 1;
    }
    assert(all.subrange(0, i as int) =~= all);
    out
}

/// The bindings of `command`.
pub fn build_command_val(cmd: &CommandInfo, pane: &PaneContext) -> (r: TriVal)
    ensures
        r@ == command_value(cmd@, pane@),
    decreases cmd,
{
    let mut map = TriMap::new();
    map.insert("name".to_owned(), TriVal::String(cmd.name.clone()));
    let args = strings_to_trivals(cmd.args.as_slice());
    assert(tris(args@) =~= Seq::new(cmd@.args.len(), |i: int| Tri::Text(cmd@.args[i])));
    map.insert("args".to_owned(), TriVal::List { elements: args, exhaustive: cmd.args_complete });
    map.insert("args_complete".to_owned(), TriVal::Bool(cmd.args_complete));
    map.insert("is_pipe_target".to_owned(), TriVal::Bool(cmd.is_pipe_target));
    map.insert(
        "has_inner".to_owned(),
        TriVal::Bool(cmd.inner != InnerExtraction::NotExtracted),
    );
    map.insert("effective_user".to_owned(), effective_to_trival(&cmd.effective_user, &pane.user));
    map.insert(
        "effective_host".to_owned(),
        effective_to_trival(&cmd.effective_host, &pane.hostname),
    );
    let writes = redirect_targets(cmd.redirects.as_slice(), true);
    map.insert("write_targets".to_owned(), TriVal::List { elements: writes, exhaustive: true });
    let reads = redirect_targets(cmd.redirects.as_slice(), false);
    map.insert("read_targets".to_owned(), TriVal::List { elements: reads, exhaustive: true });
    let parent = match &cmd.parent {
        Some(p) => build_command_val(p, pane),
        None => TriVal::Null,
    };
    map.insert("parent".to_owned(), parent);
    let options = match &cmd.getopt {
        Some(g) => if cmd.args_complete {
            g.clone()
        } else {
            TriVal::Unknown
        },
        None => TriVal::Null,
    };
    map.insert("getopt".to_owned(), options);
    TriVal::Object(map)
}

/// The project directories, resolved in a pane.
fn resolve_dirs(dirs: &[String], cwd: &str, user: Option<&str>) -> (r: Vec<TriVal>)
    ensures
        tris(r@) == resolved_dirs(
            texts(dirs@),
            cwd@,
            match user {
                Some(u) => Some(u@),
                None => None,
            },
        ),
{
    let ghost all = texts(dirs@);
    let ghost who = match user {
        Some(u) => Some(u@),
        None => None,
    };
    let mut out: Vec<TriVal> = Vec::new();
    let mut i: usize = 0;
    assert(all.subrange(0, 0) =~= Seq::<Seq<char>>::empty());
    assert(tris(out@) =~= Seq::<Tri>::empty());
    while i < dirs.len()
        invariant
            i <= dirs@.len(),
            all == texts(dirs@),
            who == (match user {
                Some(u) => Some(u@),
                None => None,
            }),
            tris(out@) == resolved_dirs(all.subrange(0, i as int), cwd@, who),
        decreases dirs@.len() - i,
    {
        let ghost upto = all.subrange(0, i + 1);
        assert(upto.drop_last() =~= all.subrange(0, i as int));
        assert(upto.last() == dirs@[i as int]@);
        if let Some(p) = resolve_path(dirs[i].as_str(), cwd, user) {
            let dir = TriVal::String(p);
            proof {
                tris_push(out@, dir);
            }
            out.push(dir);
        }
        i = i + 1;
    }
    assert(all.subrange(0, i as int) =~= all);
    out
}

/// The bindings of `pane`.
pub fn build_pane_val(pane: &PaneContext, moved: &Effective, project_dirs: &[String]) -> (r: TriVal)
    ensures
        r@ == pane_value((PaneModel { moved: moved@, ..pane@ }), texts(project_dirs@)),
{
    let mut map = TriMap::new();
    map.insert("hostname".to_owned(), option_to_trival(&pane.hostname));
    map.insert("cwd".to_owned(), effective_to_trival(moved, &pane.cwd));
    map.insert("foreground".to_owned(), option_to_trival(&pane.foreground));
    map.insert("user".to_owned(), option_to_trival(&pane.user));
    let dirs = match &pane.cwd {
        Some(cwd) => {
            let user = match &pane.user {
                Some(u) => Some(u.as_str()),
                None => None,
            };
            let elements = resolve_dirs(project_dirs, cwd.as_str(), user);
            TriVal::List { elements, exhaustive: true }
        },
        None => TriVal::Unknown,
    };
    map.insert("project_dirs".to_owned(), dirs);
    TriVal::Object(map)
}

/// A command is bound alike wherever it runs.
proof fn command_value_ignores_directory(c: CommandModel, pane: PaneModel, moved: EffectiveModel)
    ensures
        command_value(c, pane) == command_value(c, (PaneModel { moved, ..pane })),
    decreases c,
{
    if let Some(p) = c.parent {
        command_value_ignores_directory(*p, pane, moved);
    }
}

/// The bindings that a rule is evaluated under.
pub fn build_context(
    cmd: &CommandInfo,
    pane: &PaneContext,
    moved: &Effective,
    project_dirs: &[String],
) -> (r: TriMap)
    ensures
        r@ == context_of(
            cmd@,
            (PaneModel { moved: moved@, ..pane@ }),
            texts(project_dirs@),
        ),
{
    proof {
        command_value_ignores_directory(cmd@, pane@, moved@);
    }
    let mut ctx = TriMap::new();
    ctx.insert("command".to_owned(), build_command_val(cmd, pane));
    ctx.insert("pane".to_owned(), build_pane_val(pane, moved, project_dirs));
    ctx
}

/// Whether a value is the pane's own.
fn is_same_context(e: &Effective, pane: &Option<String>) -> (r: bool)
    ensures
        r == same_context(e@, opt_text(*pane)),
{
    match e {
        Effective::Unchanged => true,
        Effective::Known(s) => match pane {
            Some(p) => str_eq(p.as_str(), s.as_str()),
            None => false,
        },
        Effective::Unknown => false,
    }
}

/// Evaluate a command against the rules: the first rule that applies decides,
/// or else the default.
pub fn evaluate(cmd: &CommandInfo, ctx: &PaneContext, rules: &RuleSet) -> (r: PolicyResult)
    ensures
        (r.decision, r.rule@) == verdict(cmd@, ctx@, *rules),
{
    let (result, _) = decide(cmd, ctx, &Effective::Unchanged, rules);
    result
}

/// The directory to which a captured value moves.
fn capture(value: TriVal, moved: &Effective) -> (r: Effective)
    ensures
        r@ == captured_cwd(value@, moved@),
{
    match value {
        TriVal::String(s) => if word_has_expansion(s.as_str()) {
            Effective::Unknown
        } else {
            Effective::Known(s)
        },
        TriVal::Unknown => Effective::Unknown,
        _ => moved.clone(),
    }
}

/// Evaluate a command against the rules in the directory to which those before it
/// have moved, and tell to which it moves those after it.
pub fn decide(cmd: &CommandInfo, ctx: &PaneContext, moved: &Effective, rules: &RuleSet) -> (r: (
    PolicyResult,
    Effective,
))
    ensures
        ({
            let pane = PaneModel { moved: moved@, ..ctx@ };
            &&& (r.0.decision, r.0.rule@) == verdict(cmd@, pane, *rules)
            &&& (PaneModel { moved: r.1@, ..ctx@ }) == pane_after(cmd@, pane, *rules)
        }),
{
    let ghost pane = PaneModel { moved: moved@, ..ctx@ };
    let bindings = build_context(cmd, ctx, moved, rules.project_dirs.as_slice());
    let mut i: usize = 0;
    while i < rules.rules.len()
        invariant
            i <= rules.rules@.len(),
            pane == (PaneModel { moved: moved@, ..ctx@ }),
            bindings@ == context_of(cmd@, pane, texts(rules.project_dirs@)),
            first_applying(rules.rules@, 0, cmd@, pane, bindings@) == first_applying(
                rules.rules@,
                i as int,
                cmd@,
                pane,
                bindings@,
            ),
        decreases rules.rules@.len() - i,
    {
        let rule = &rules.rules[i];
        let holds = eval_expr(&rule.ast, &bindings).is_truthy() == TriBool::True;
        let tied = rule.action == Decision::Allow;
        let user_ok = !tied || rule.privilege_aware || is_same_context(
            &cmd.effective_user,
            &ctx.user,
        );
        let host_ok = !tied || rule.host_aware || is_same_context(
            &cmd.effective_host,
            &ctx.hostname,
        );
        if holds && user_ok && host_ok {
            let mut text = rule.description.clone();
            if let Some(m) = &rule.message {
                text.append(": ");
                text.append(m.as_str());
            }
            let after = match &rule.capture_cwd {
                Some(e) => capture(eval_expr(e, &bindings), moved),
                None => moved.clone(),
            };
            return (PolicyResult { decision: rule.action, rule: text }, after);
        }
        i = i + 1;
    }
    (PolicyResult { decision: rules.default, rule: "default".to_owned() }, moved.clone())
}

/// `first_applying` is the first rule that applies.
pub(crate) proof fn first_applying_is_first(
    rules: Seq<CompiledRule>,
    i: int,
    c: CommandModel,
    pane: PaneModel,
    ctx: Map<Seq<char>, Tri>,
)
    requires
        0 <= i <= rules.len(),
    ensures
        i <= first_applying(rules, i, c, pane, ctx) <= rules.len(),
        forall|j: int|
            i <= j < first_applying(rules, i, c, pane, ctx) ==> !applies(
                #[trigger] rules[j],
                c,
                pane,
                ctx,
            ),
        first_applying(rules, i, c, pane, ctx) < rules.len() ==> applies(
            rules[first_applying(rules, i, c, pane, ctx)],
            c,
            pane,
            ctx,
        ),
    decreases rules.len() - i,
{
    if i < rules.len() && !applies(rules[i], c, pane, ctx) {
        first_applying_is_first(rules, i + 1, c, pane, ctx);
    }
}

/// The first rule that applies decides, whatever stands behind it.
pub proof fn first_match_decides(c: CommandModel, pane: PaneModel, set: RuleSet, i: int)
    requires
        0 <= i < set.rules@.len(),
        applies(set.rules@[i], c, pane, context_of(c, pane, texts(set.project_dirs@))),
        forall|j: int|
            0 <= j < i ==> !applies(
                #[trigger] set.rules@[j],
                c,
                pane,
                context_of(c, pane, texts(set.project_dirs@)),
            ),
    ensures
        verdict(c, pane, set) == (set.rules@[i].action, rule_text(set.rules@[i])),
{
    let ctx = context_of(c, pane, texts(set.project_dirs@));
    first_applying_is_first(set.rules@, 0, c, pane, ctx);
    let k = first_applying(set.rules@, 0, c, pane, ctx);
    if k < i {
        assert(!applies(set.rules@[k], c, pane, ctx));
    }
}

/// Where no rule applies, the default decides.
pub proof fn default_decides_without_match(c: CommandModel, pane: PaneModel, set: RuleSet)
    requires
        forall|j: int|
            0 <= j < set.rules@.len() ==> !applies(
                #[trigger] set.rules@[j],
                c,
                pane,
                context_of(c, pane, texts(set.project_dirs@)),
            ),
    ensures
        verdict(c, pane, set) == (set.default, "default"@),
{
    first_applying_is_first(set.rules@, 0, c, pane, context_of(c, pane, texts(set.project_dirs@)));
}

/// A rule whose condition is not known to hold does not apply: in doubt, rules
/// are passed over.
pub proof fn doubt_never_matches(
    rule: CompiledRule,
    c: CommandModel,
    pane: PaneModel,
    ctx: Map<Seq<char>, Tri>,
)
    requires
        eval(rule.ast, ctx) is Unknown,
    ensures
        !applies(rule, c, pane, ctx),
{
}

/// A command that runs as another user, or perhaps does, is allowed only by a
/// rule that looks at the user; and so for the host. The rule is the one that
/// decides.
pub proof fn allow_keeps_user_and_host(c: CommandModel, pane: PaneModel, set: RuleSet)
    requires
        verdict(c, pane, set).0 == Decision::Allow,
        set.default != Decision::Allow,
    ensures
        ({
            let ctx = context_of(c, pane, texts(set.project_dirs@));
            let k = first_applying(set.rules@, 0, c, pane, ctx);
            &&& 0 <= k < set.rules@.len()
            &&& set.rules@[k].action == Decision::Allow
            &&& same_context(c.effective_user, pane.user) || set.rules@[k].privilege_aware
            &&& same_context(c.effective_host, pane.hostname) || set.rules@[k].host_aware
        }),
{
    let ctx = context_of(c, pane, texts(set.project_dirs@));
    first_applying_is_first(set.rules@, 0, c, pane, ctx);
    let k = first_applying(set.rules@, 0, c, pane, ctx);
    assert(applies(set.rules@[k], c, pane, ctx));
}

/// What a rule sees of a command: its name and arguments as they were written, the
/// user and host that it runs with, or those of the pane where no wrapper changes
/// them, whether it receives piped input, its redirects, and its parent.
pub proof fn rule_sees_the_command(
    c: CommandModel,
    pane: PaneModel,
    dirs: Seq<Seq<char>>,
    m: Map<Seq<char>, Tri>,
)
    requires
        context_of(c, pane, dirs).dom().contains("command"@),
        context_of(c, pane, dirs)["command"@] == Tri::Object(m),
    ensures
        lookup(m, "name"@) == Tri::Text(c.name),
        lookup(m, "args"@) matches Tri::List { elements, exhaustive } && exhaustive
            == c.args_complete && elements.len() == c.args.len() && forall|i: int|
            0 <= i < c.args.len() ==> elements[i] == Tri::Text(#[trigger] c.args[i]),
        lookup(m, "args_complete"@) == Tri::Bool(c.args_complete),
        lookup(m, "is_pipe_target"@) == Tri::Bool(c.is_pipe_target),
        lookup(m, "has_inner"@) == Tri::Bool(c.inner != InnerExtraction::NotExtracted),
        c.effective_user matches EffectiveModel::Known(u) ==> lookup(m, "effective_user"@)
            == Tri::Text(u),
        c.effective_user is Unknown ==> lookup(m, "effective_user"@) is Unknown,
        c.effective_user is Unchanged ==> lookup(m, "effective_user"@) == (match pane.user {
            Some(u) => Tri::Text(u),
            None => Tri::Null,
        }),
        c.effective_host matches EffectiveModel::Known(h) ==> lookup(m, "effective_host"@)
            == Tri::Text(h),
        c.effective_host is Unknown ==> lookup(m, "effective_host"@) is Unknown,
        c.effective_host is Unchanged ==> lookup(m, "effective_host"@) == (match pane.hostname {
            Some(h) => Tri::Text(h),
            None => Tri::Null,
        }),
        c.parent is None ==> lookup(m, "parent"@) is Null,
        c.parent is Some ==> lookup(m, "parent"@) is Object,
        c.getopt is None ==> lookup(m, "getopt"@) is Null,
        c.getopt is Some && c.args_complete ==> lookup(m, "getopt"@) == c.getopt->0,
        c.getopt is Some && !c.args_complete ==> lookup(m, "getopt"@) is Unknown,
        lookup(m, "write_targets"@) == (Tri::List {
            elements: targets(c.redirects, true),
            exhaustive: true,
        }),
        lookup(m, "read_targets"@) == (Tri::List {
            elements: targets(c.redirects, false),
            exhaustive: true,
        }),
{
    reveal_strlit("command");
    reveal_strlit("pane");
    assert("command"@.len() == 7 && "pane"@.len() == 4);
    reveal_strlit("name");
    reveal_strlit("args");
    reveal_strlit("args_complete");
    reveal_strlit("is_pipe_target");
    reveal_strlit("has_inner");
    reveal_strlit("effective_user");
    reveal_strlit("effective_host");
    reveal_strlit("write_targets");
    reveal_strlit("read_targets");
    reveal_strlit("parent");
    reveal_strlit("getopt");
    assert("name"@.len() == 4 && "name"@[0] == 'n');
    assert("args"@.len() == 4 && "args"@[0] == 'a');
    assert("args_complete"@.len() == 13 && "args_complete"@[0] == 'a');
    assert("is_pipe_target"@.len() == 14 && "is_pipe_target"@[0] == 'i');
    assert("has_inner"@.len() == 9);
    assert("effective_user"@.len() == 14 && "effective_user"@[0] == 'e' && "effective_user"@[10]
        == 'u');
    assert("effective_host"@.len() == 14 && "effective_host"@[0] == 'e' && "effective_host"@[10]
        == 'h');
    assert("write_targets"@.len() == 13 && "write_targets"@[0] == 'w');
    assert("read_targets"@.len() == 12);
    assert("parent"@.len() == 6 && "parent"@[0] == 'p');
    assert("getopt"@.len() == 6 && "getopt"@[0] == 'g');
    if let Some(p) = c.parent {
        assert(command_value(*p, pane) is Object);
    }
}

/// The files that are told as written to or read from are those of the redirects
/// of that kind, in order; one whose name holds an expansion is told as unknown.
pub proof fn targets_are_of_the_redirects(redirects: Seq<RedirectModel>, write: bool, k: int)
    requires
        0 <= k < redirects.len(),
        redirects[k].is_write == write,
    ensures
        !redirects[k].has_expansion ==> targets(redirects, write).contains(
            Tri::Text(redirects[k].target),
        ),
        redirects[k].has_expansion ==> targets(redirects, write).contains(Tri::Unknown),
        targets(redirects, write).len() == redirects.filter(
            |r: RedirectModel| r.is_write == write,
        ).len(),
    decreases redirects.len(),
{
    targets_are_counted(redirects, write);
    let n = redirects.len() - 1;
    let all = targets(redirects, write);
    let before = targets(redirects.drop_last(), write);
    if k < n {
        targets_are_of_the_redirects(redirects.drop_last(), write, k);
        let v = if redirects[k].has_expansion {
            Tri::Unknown
        } else {
            Tri::Text(redirects[k].target)
        };
        assert(before.contains(v));
        let j = choose|j: int| 0 <= j < before.len() && before[j] == v;
        assert(all[j] == v);
    } else {
        assert(all[before.len() as int] == all.last());
    }
}

/// As many files are told as there are redirects of that kind.
proof fn targets_are_counted(redirects: Seq<RedirectModel>, write: bool)
    ensures
        targets(redirects, write).len() == redirects.filter(
            |r: RedirectModel| r.is_write == write,
        ).len(),
    decreases redirects.len(),
{
    reveal(Seq::filter);
    if redirects.len() > 0 {
        targets_are_counted(redirects.drop_last(), write);
    }
}

/// What a rule sees of the pane: host, user and foreground process as they are,
/// and the directory to which the commands before have moved, or else its own.
pub proof fn rule_sees_the_pane(
    c: CommandModel,
    pane: PaneModel,
    dirs: Seq<Seq<char>>,
    m: Map<Seq<char>, Tri>,
)
    requires
        context_of(c, pane, dirs).dom().contains("pane"@),
        context_of(c, pane, dirs)["pane"@] == Tri::Object(m),
    ensures
        lookup(m, "hostname"@) == (match pane.hostname {
            Some(h) => Tri::Text(h),
            None => Tri::Null,
        }),
        lookup(m, "user"@) == (match pane.user {
            Some(u) => Tri::Text(u),
            None => Tri::Null,
        }),
        lookup(m, "foreground"@) == (match pane.foreground {
            Some(f) => Tri::Text(f),
            None => Tri::Null,
        }),
        pane.moved matches EffectiveModel::Known(d) ==> lookup(m, "cwd"@) == Tri::Text(d),
        pane.moved is Unknown ==> lookup(m, "cwd"@) is Unknown,
        pane.moved is Unchanged ==> lookup(m, "cwd"@) == (match pane.cwd {
            Some(d) => Tri::Text(d),
            None => Tri::Null,
        }),
{
    reveal_strlit("command");
    reveal_strlit("pane");
    reveal_strlit("hostname");
    reveal_strlit("cwd");
    reveal_strlit("foreground");
    reveal_strlit("user");
    reveal_strlit("project_dirs");
    assert("command"@.len() == 7 && "pane"@.len() == 4);
    assert("hostname"@.len() == 8 && "cwd"@.len() == 3 && "foreground"@.len() == 10
        && "user"@.len() == 4 && "project_dirs"@.len() == 12);
}

/// What is said of a decision names the rule, with its message where it has one.
pub proof fn rule_is_named(rule: CompiledRule)
    ensures
        tells(rule_text(rule), rule.description@),
        rule.message matches Some(m) ==> tells(rule_text(rule), m@),
{
    let none = Seq::<char>::empty();
    let description = rule.description@;
    match rule.message {
        Some(m) => {
            let text = rule_text(rule);
            assert(text =~= none + description + (": "@ + m@));
            middle_is_told(none, description, ": "@ + m@);
            assert(text =~= (description + ": "@) + m@ + none);
            middle_is_told(description + ": "@, m@, none);
        },
        None => {
            assert(rule_text(rule) =~= none + description + none);
            middle_is_told(none, description, none);
        },
    }
}

/// A captured directory is the text that was captured; nothing is known of it where
/// nothing is known of the value or it holds an expansion; and null leaves the pane
/// where it was.
pub proof fn captured_directories(s: Seq<char>, moved: EffectiveModel)
    ensures
        !has_expansion(s) ==> captured_cwd(Tri::Text(s), moved) == EffectiveModel::Known(s),
        has_expansion(s) ==> captured_cwd(Tri::Text(s), moved) is Unknown,
        captured_cwd(Tri::Unknown, moved) is Unknown,
        captured_cwd(Tri::Null, moved) == moved,
{
}

/// A rule compiles to its own expression and to the action that it names, and is
/// aware of the user or of the host exactly where its expression selects them. One
/// that names no action does not compile.
pub proof fn compiled_rule_does_as_written(c: CompiledRule, rule: TaggedRule)
    ensures
        compiled_from(c, rule) && rule.config.action@ == "allow"@ ==> c.action == Decision::Allow,
        compiled_from(c, rule) && rule.config.action@ == "ask"@ ==> c.action == Decision::Ask,
        compiled_from(c, rule) && rule.config.action@ == "deny"@ ==> c.action == Decision::Deny,
        compiled_from(c, rule) ==> Ok::<CelExpr, Seq<char>>(c.ast) == cel_of(rule.config.when@)
            && c.description@ == rule.config.description@,
        compiled_from(c, rule) ==> (c.privilege_aware <==> mentions_command_field(
            c.ast,
            "effective_user"@,
        )) && (c.host_aware <==> mentions_command_field(c.ast, "effective_host"@)),
        compiled_from(c, rule) ==> (c.capture_cwd is Some <==> rule.config.capture_cwd is Some),
        rule.config.action@ != "allow"@ && rule.config.action@ != "ask"@ && rule.config.action@
            != "deny"@ ==> rule_error(rule) is Some,
        cel_of(rule.config.when@) is Err ==> rule_error(rule) is Some,
        rule.config.capture_cwd matches Some(t) ==> cel_of(t@) is Err ==> rule_error(rule) is Some,
        rule_error(rule) matches Some(e) ==> tells(e, rule.config.description@),
{
    reveal_strlit("allow");
    reveal_strlit("ask");
    reveal_strlit("deny");
    assert("allow"@.len() == 5 && "ask"@.len() == 3 && "deny"@.len() == 4);
    let description = rule.config.description@;
    let a = "CEL parse error in rule '"@;
    let b = "CEL parse error in capture_cwd of rule '"@;
    let d = "Invalid action '"@ + rule.config.action@ + "' in rule '"@;
    let d2 = "' (must be allow/ask/deny)"@;
    match cel_of(rule.config.when@) {
        Err(e) => {
            assert(rule_error(rule)->0 =~= a + description + ("': "@ + e));
            middle_is_told(a, description, "': "@ + e);
        },
        Ok(_) => {
            middle_is_told(d, description, d2);
            if let Some(t) = rule.config.capture_cwd {
                if let Err(e) = cel_of(t@) {
                    assert(b + description + "': "@ + e =~= b + description + ("': "@ + e));
                    middle_is_told(b, description, "': "@ + e);
                }
            }
        },
    }
}

/// The values of literals, names, lists and selected fields.
pub proof fn values_of_expressions(e: CelExpr, ctx: Map<Seq<char>, Tri>, i: int)
    ensures
        e matches CelExpr::Literal(CelLiteral::Text(s)) ==> eval(e, ctx) == Tri::Text(s@),
        e matches CelExpr::Literal(CelLiteral::Int(n)) ==> eval(e, ctx) == Tri::Int(n as int),
        e matches CelExpr::Literal(CelLiteral::Bool(b)) ==> eval(e, ctx) == Tri::Bool(b),
        e matches CelExpr::Literal(CelLiteral::Null) ==> eval(e, ctx) is Null,
        e matches CelExpr::Ident(name) ==> (ctx.dom().contains(name@) ==> eval(e, ctx)
            == ctx[name@]) && (!ctx.dom().contains(name@) ==> eval(e, ctx) is Unknown),
        e matches CelExpr::List(v) ==> (eval(e, ctx) matches Tri::List { elements, exhaustive }
            && exhaustive && elements.len() == v@.len() && (0 <= i < v@.len() ==> elements[i]
            == eval(v@[i], ctx))),
        e matches CelExpr::Select { operand, field } ==> (eval(
            *operand,
            ctx,
        ) matches Tri::Object(m) ==> m.dom().contains(field@) ==> eval(e, ctx) == m[field@]),
{
    reveal_with_fuel(eval, 2);
    reveal_with_fuel(eval_all, 2);
    if let CelExpr::List(v) = e {
        let all = eval_all(v, ctx);
        assert(all.len() == v@.len());
    }
}

/// A map literal holds the value of every entry whose key is a text, under that
/// key; the last of several counts.
pub proof fn entries_of_records(
    entries: Vec<CelEntry>,
    n: nat,
    ctx: Map<Seq<char>, Tri>,
    i: int,
    key: CelExpr,
    value: CelExpr,
    k: Seq<char>,
)
    requires
        0 <= i < n <= entries@.len(),
        entries@[i] == (CelEntry::Pair { key, value }),
        eval(key, ctx) == Tri::Text(k),
        forall|j: int|
            i < j < n ==> !((#[trigger] entries@[j]) matches CelEntry::Pair { key: other, value: _ }
                && eval(other, ctx) == Tri::Text(k)),
    ensures
        record_of(entries, n, ctx).dom().contains(k),
        record_of(entries, n, ctx)[k] == eval(value, ctx),
    decreases n,
{
    if i < n - 1 {
        assert(entries@[n - 1] == entries@[n - 1]);
        entries_of_records(entries, (n - 1) as nat, ctx, i, key, value, k);
    }
}

/// Dropping a prefix: what is left starts with the first element for which the
/// predicate is not definitely true.
pub proof fn dropped_prefix(
    predicate: CelExpr,
    var: Seq<char>,
    elements: Seq<Tri>,
    from: int,
    k: int,
    ctx: Map<Seq<char>, Tri>,
)
    requires
        0 <= from <= k <= elements.len(),
        forall|j: int|
            from <= j < k ==> eval(predicate, ctx.insert(var, #[trigger] elements[j])) == Tri::Bool(
                true,
            ),
        k < elements.len() ==> eval(predicate, ctx.insert(var, elements[k])) != Tri::Bool(true),
    ensures
        matching_prefix(predicate, var, elements, from, ctx) == k,
    decreases k - from,
{
    if from < k {
        assert(eval(predicate, ctx.insert(var, elements[from])) == Tri::Bool(true));
        dropped_prefix(predicate, var, elements, from + 1, k, ctx);
    }
}

/// The project directories are those that were configured, in order, each resolved
/// in the pane's directory for its user.
pub proof fn project_directories_are_resolved(
    dirs: Seq<Seq<char>>,
    cwd: Seq<char>,
    user: Option<Seq<char>>,
)
    requires
        forall|i: int| 0 <= i < dirs.len() ==> resolved_path(#[trigger] dirs[i], cwd, user) is Some,
    ensures
        resolved_dirs(dirs, cwd, user) == Seq::new(
            dirs.len(),
            |i: int| Tri::Text(resolved_path(dirs[i], cwd, user)->0),
        ),
    decreases dirs.len(),
{
    let all = Seq::new(dirs.len(), |i: int| Tri::Text(resolved_path(dirs[i], cwd, user)->0));
    if dirs.len() > 0 {
        let front = dirs.drop_last();
        assert forall|i: int| 0 <= i < front.len() implies resolved_path(
            #[trigger] front[i],
            cwd,
            user,
        ) is Some by {
            assert(resolved_path(dirs[i], cwd, user) is Some);
        }
        project_directories_are_resolved(front, cwd, user);
        assert(resolved_path(dirs[dirs.len() - 1], cwd, user) is Some);
        assert(resolved_dirs(dirs, cwd, user) =~= all);
    } else {
        assert(resolved_dirs(dirs, cwd, user) =~= all);
    }
}

} // verus!
