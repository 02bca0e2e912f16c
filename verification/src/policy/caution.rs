//! What is decided on arguments that are not all known stands, however they go
//! on.
//!
//! A command such as that of `xargs` receives arguments that are not written
//! down. Its argument list may go on, and what depends on the rest is unknown.
//! For the expressions named here, an answer that is known is the answer for every
//! way in which the list can go on.

use super::builtins::{
    builtin, in_project_value, list_builtin, lookup, member, named_builtin, path_value,
    short_flag_value, slice_value, two_args,
};
use super::cel::{CelCall, CelExpr, CelFold, CelLiteral};
use super::parse::CommandModel;
use super::rules::{
    applies, command_value, context_of, eval, eval_all, eval_apply, fold_from, CompiledRule,
};
use super::value::{kleene_and, kleene_not, kleene_or, of_bool, refines, tri_equal, truth, Tri, TriBool};
use super::PaneModel;
use vstd::prelude::*;

verus! {

/// Whether `b` is what `a` may turn out to be: `a` is unknown, or they are the
/// same, or `a` is a list that may go on and `b` goes on.
pub open spec fn near(a: Tri, b: Tri) -> bool {
    a == b || a is Unknown || (a matches Tri::List { elements: x, exhaustive: false }
        && b matches Tri::List { elements: y, .. } && x.len() <= y.len() && y.subrange(
        0,
        x.len() as int,
    ) == x)
}

/// Whether the objects bound to `command` differ in no more than how their
/// arguments go on.
pub open spec fn near_command(a: Tri, b: Tri) -> bool {
    a matches Tri::Object(m) && b matches Tri::Object(n) && m.dom() == n.dom() && forall|k: Seq<char>|
        m.dom().contains(k) && k != "args_complete"@ ==> near(#[trigger] m[k], n[k])
}

/// Whether bindings differ in no more than how the arguments of the command go
/// on, and in what follows from that.
pub open spec fn fuller(c: Map<Seq<char>, Tri>, d: Map<Seq<char>, Tri>) -> bool {
    &&& c.dom() == d.dom()
    &&& c.dom().contains("command"@) && near_command(c["command"@], d["command"@])
    &&& c.dom().contains("pane"@) && c["pane"@] == d["pane"@]
    &&& forall|k: Seq<char>|
        c.dom().contains(k) && k != "command"@ ==> near(#[trigger] c[k], d[k])
}

/// Whether an expression is the same under all bindings of the command: literals,
/// what the pane binds, and lists of these.
pub open spec fn is_rigid(e: CelExpr) -> bool
    decreases e, 0nat,
{
    match e {
        CelExpr::Literal(_) => true,
        CelExpr::Select { operand, .. } => match *operand {
            CelExpr::Ident(name) => name@ == "pane"@,
            _ => false,
        },
        CelExpr::List(v) => all_rigid(v),
        _ => false,
    }
}

/// Whether all expressions are the same under all bindings of the command.
pub open spec fn all_rigid(v: Vec<CelExpr>) -> bool
    decreases v, 0nat,
{
    forall|i: int|
        0 <= i < v@.len() ==> (if 0 <= i < v@.len() {
            is_rigid(#[trigger] v@[i])
        } else {
            true
        })
}

/// The functions that keep an answer however the arguments go on.
pub open spec fn is_cautious_name(name: Seq<char>) -> bool {
    name == "_==_"@ || name == "_!=_"@ || name == "_&&_"@ || name == "_||_"@ || name == "!_"@ || name
        == "@in"@ || name == "_?_:_"@ || name == "glob"@ || name == "contains"@ || name
        == "startsWith"@ || name == "has_short_flag"@ || name == "path"@ || name == "in_project"@
        || name == "or"@ || name == "slice"@
}

/// Lengths and characters that tell the names of functions apart.
pub(crate) proof fn names_differ()
    ensures
        "_==_"@.len() == 4 && "_==_"@[1] == '=',
        "_!=_"@.len() == 4 && "_!=_"@[1] == '!',
        "_&&_"@.len() == 4 && "_&&_"@[1] == '&',
        "_||_"@.len() == 4 && "_||_"@[1] == '|',
        "_[_]"@.len() == 4 && "_[_]"@[1] == '[',
        "glob"@.len() == 4 && "glob"@[1] == 'l',
        "path"@.len() == 4 && "path"@[1] == 'a',
        "!_"@.len() == 2 && "!_"@[0] == '!',
        "or"@.len() == 2 && "or"@[0] == 'o',
        "@in"@.len() == 3 && "@in"@[0] == '@',
        "_+_"@.len() == 3 && "_+_"@[0] == '_',
        "_?_:_"@.len() == 5 && "_?_:_"@[0] == '_',
        "after"@.len() == 5 && "after"@[0] == 'a',
        "slice"@.len() == 5 && "slice"@[0] == 's',
        "getopt"@.len() == 6 && "getopt"@[0] == 'g',
        "rsplit"@.len() == 6 && "rsplit"@[0] == 'r',
        "contains"@.len() == 8,
        "dropwhile"@.len() == 9,
        "startsWith"@.len() == 10 && "startsWith"@[0] == 's',
        "in_project"@.len() == 10 && "in_project"@[0] == 'i',
        "has_short_flag"@.len() == 14,
        "@not_strictly_false"@.len() == 19,
{
    reveal_strlit("_==_");
    reveal_strlit("_!=_");
    reveal_strlit("_&&_");
    reveal_strlit("_||_");
    reveal_strlit("_[_]");
    reveal_strlit("glob");
    reveal_strlit("path");
    reveal_strlit("!_");
    reveal_strlit("or");
    reveal_strlit("@in");
    reveal_strlit("_+_");
    reveal_strlit("_?_:_");
    reveal_strlit("after");
    reveal_strlit("slice");
    reveal_strlit("getopt");
    reveal_strlit("rsplit");
    reveal_strlit("contains");
    reveal_strlit("dropwhile");
    reveal_strlit("startsWith");
    reveal_strlit("in_project");
    reveal_strlit("has_short_flag");
    reveal_strlit("@not_strictly_false");
}

/// The truth of near values.
proof fn truth_is_near(a: Tri, b: Tri)
    requires
        near(a, b),
    ensures
        refines(truth(a), truth(b)),
        refines(truth(a), truth(b)) ==> near(of_bool(truth(a)), of_bool(truth(b))),
{
}

/// Elements of near lists are equal as far as both go.
proof fn elements_are_equal(a: Tri, b: Tri, i: int)
    requires
        near(a, b),
        a is List,
        0 <= i < a->elements.len(),
    ensures
        b is List,
        i < b->elements.len(),
        a->elements[i] == b->elements[i],
{
    if a != b {
        assert(b->elements.subrange(0, a->elements.len() as int)[i] == b->elements[i]);
    }
}

/// Membership in near lists.
proof fn member_is_near(a: Tri, b: Tri, x: Tri, y: Tri)
    requires
        near(a, b),
        near(x, y),
    ensures
        near(member(a, x), member(b, y)),
{
    if !(a is Unknown) && !(x is Unknown) && x is List {
        assert forall|e: Tri| tri_equal(a, e) == tri_equal(b, e) by {}
        let p = x->elements;
        let q = y->elements;
        if exists|i: int| 0 <= i < p.len() && tri_equal(a, #[trigger] p[i]) == TriBool::True {
            let i = choose|i: int| 0 <= i < p.len() && tri_equal(a, #[trigger] p[i]) == TriBool::True;
            elements_are_equal(x, y, i);
            assert(tri_equal(b, q[i]) == TriBool::True);
        } else if x == y {
            assert(forall|i: int|
                0 <= i < p.len() ==> tri_equal(a, #[trigger] p[i]) == tri_equal(b, q[i]));
            assert(member(a, x) == member(b, y)) by {
                assert(forall|i: int|
                    0 <= i < q.len() ==> tri_equal(b, #[trigger] q[i]) == tri_equal(a, p[i]));
            }
        }
    }
}

/// Short flags in near lists.
proof fn short_flag_is_near(a: Tri, b: Tri, x: Tri, y: Tri)
    requires
        near(a, b),
        near(x, y),
    ensures
        near(short_flag_value(a, x), short_flag_value(b, y)),
{
    if a is List && x is Text && x->Text_0.len() > 0 {
        let c = x->Text_0[0];
        let p = a->elements;
        if exists|i: int|
            0 <= i < p.len() && super::builtins::is_short_with(#[trigger] p[i], c) {
            let i = choose|i: int|
                0 <= i < p.len() && super::builtins::is_short_with(#[trigger] p[i], c);
            elements_are_equal(a, b, i);
            assert(super::builtins::is_short_with(b->elements[i], c));
        }
    }
}

/// Slices of near lists.
proof fn slice_is_near(a: Tri, b: Tri, x: Tri, y: Tri)
    requires
        near(a, b),
        near(x, y),
    ensures
        near(slice_value(a, x), slice_value(b, y)),
{
    if a is List && x is Int && a != b {
        let r = slice_value(a, x)->elements;
        let t = slice_value(b, y)->elements;
        let p = a->elements;
        let q = b->elements;
        assert forall|i: int| 0 <= i < p.len() implies p[i] == q[i] by {
            elements_are_equal(a, b, i);
        }
        assert(t.subrange(0, r.len() as int) =~= r);
    }
}

/// Whether values are near one by one.
pub open spec fn all_near(a: Seq<Tri>, b: Seq<Tri>) -> bool {
    a.len() == b.len() && forall|i: int| 0 <= i < a.len() ==> near(#[trigger] a[i], b[i])
}

/// Whether optional values are near.
pub open spec fn opt_near(a: Option<Tri>, b: Option<Tri>) -> bool {
    match (a, b) {
        (Some(x), Some(y)) => near(x, y),
        (None, None) => true,
        _ => false,
    }
}

/// A cautious function of near values, written with a sign.
proof fn sign_is_near(
    name: Seq<char>,
    t: Option<Tri>,
    u: Option<Tri>,
    a: Seq<Tri>,
    b: Seq<Tri>,
    c: Map<Seq<char>, Tri>,
    d: Map<Seq<char>, Tri>,
)
    requires
        name == "_==_"@ || name == "_!=_"@ || name == "_&&_"@ || name == "_||_"@ || name == "!_"@
            || name == "@in"@ || name == "_?_:_"@,
        all_near(a, b),
    ensures
        near(builtin(name, t, a, c), builtin(name, u, b, d)),
{
    names_differ();
    if a.len() == 2 {
        let (p, q) = (a[0], a[1]);
        let (r, s) = (b[0], b[1]);
        assert(near(p, r) && near(q, s));
        truth_is_near(p, r);
        truth_is_near(q, s);
        if name == "@in"@ {
            member_is_near(p, r, q, s);
        } else if name == "_==_"@ || name == "_!=_"@ {
            assert(refines(tri_equal(p, q), tri_equal(r, s)));
        } else if name == "_&&_"@ {
            assert(refines(kleene_and(truth(p), truth(q)), kleene_and(truth(r), truth(s))));
        } else if name == "_||_"@ {
            assert(refines(kleene_or(truth(p), truth(q)), kleene_or(truth(r), truth(s))));
        }
    } else if a.len() == 1 {
        assert(near(a[0], b[0]));
        truth_is_near(a[0], b[0]);
    } else if a.len() == 3 {
        assert(near(a[0], b[0]) && near(a[1], b[1]) && near(a[2], b[2]));
        truth_is_near(a[0], b[0]);
    }
}

/// A cautious function of near values.
proof fn call_is_near(
    name: Seq<char>,
    t: Option<Tri>,
    u: Option<Tri>,
    a: Seq<Tri>,
    b: Seq<Tri>,
    c: Map<Seq<char>, Tri>,
    d: Map<Seq<char>, Tri>,
)
    requires
        is_cautious_name(name),
        opt_near(t, u),
        all_near(a, b),
        fuller(c, d),
    ensures
        near(builtin(name, t, a, c), builtin(name, u, b, d)),
{
    names_differ();
    if name == "_==_"@ || name == "_!=_"@ || name == "_&&_"@ || name == "_||_"@ || name == "!_"@
        || name == "@in"@ || name == "_?_:_"@ {
        sign_is_near(name, t, u, a, b, c, d);
    } else {
        assert(builtin(name, t, a, c) == named_builtin(name, t, a, c));
        assert(builtin(name, u, b, d) == named_builtin(name, u, b, d));
        assert(a.len() >= 1 ==> near(a[0], b[0]));
        assert(a.len() >= 2 ==> near(a[1], b[1]));
        if name == "glob"@ {
        } else if name == "contains"@ || name == "startsWith"@ {
            let (p, q) = two_args(t, a);
            let (r, s) = two_args(u, b);
            assert(near(p, r) && near(q, s));
        } else if name == "has_short_flag"@ {
            if a.len() >= 2 {
                short_flag_is_near(a[0], b[0], a[1], b[1]);
            }
        } else if name == "path"@ {
            if a.len() == 1 {
                assert(path_value(b[0], c) == path_value(b[0], d));
            }
        } else if name == "in_project"@ {
            if a.len() == 1 {
                assert(in_project_value(b[0], c) == in_project_value(b[0], d));
            }
        } else if name == "or"@ {
        } else {
            assert(named_builtin(name, t, a, c) == list_builtin(name, t, a));
            assert(named_builtin(name, u, b, d) == list_builtin(name, u, b));
            if a.len() == 2 {
                slice_is_near(a[0], b[0], a[1], b[1]);
            }
        }
    }
}

/// Whether an expression names the accumulator of `exists` and `all`.
pub open spec fn is_accu(e: CelExpr) -> bool {
    e matches CelExpr::Ident(name) && name@ == "@result"@
}

/// Whether an expression calls a function of that name on that many arguments.
pub open spec fn is_call(e: CelExpr, name: Seq<char>, n: nat) -> bool {
    e matches CelExpr::Call(c) && c.func_name@ == name && c.target is None && c.args@.len() == n
}

/// The argument of a call.
pub open spec fn argument(e: CelExpr, i: int) -> CelExpr
    recommends
        e is Call,
{
    match e {
        CelExpr::Call(c) => c.args@[i],
        _ => e,
    }
}

/// Whether a comprehension is what `exists` becomes.
pub open spec fn is_exists(f: CelFold) -> bool {
    &&& f.accu_var@ == "@result"@
    &&& f.accu_init matches CelExpr::Literal(CelLiteral::Bool(b)) && !b
    &&& is_call(f.loop_cond, "@not_strictly_false"@, 1)
    &&& is_call(argument(f.loop_cond, 0), "!_"@, 1)
    &&& is_accu(argument(argument(f.loop_cond, 0), 0))
    &&& is_call(f.loop_step, "_||_"@, 2)
    &&& is_accu(argument(f.loop_step, 0))
    &&& is_accu(f.result)
}

/// Whether a comprehension is what `all` becomes.
pub open spec fn is_all(f: CelFold) -> bool {
    &&& f.accu_var@ == "@result"@
    &&& f.accu_init matches CelExpr::Literal(CelLiteral::Bool(b)) && b
    &&& is_call(f.loop_cond, "@not_strictly_false"@, 1)
    &&& is_accu(argument(f.loop_cond, 0))
    &&& is_call(f.loop_step, "_&&_"@, 2)
    &&& is_accu(argument(f.loop_step, 0))
    &&& is_accu(f.result)
}

/// Whether a name can be bound without hiding another that is looked at.
pub open spec fn is_free(name: Seq<char>) -> bool {
    name != "command"@ && name != "pane"@ && name != "@result"@
}

/// Whether an expression keeps an answer however the arguments go on.
pub open spec fn is_cautious(e: CelExpr) -> bool
    decreases e, 0nat,
{
    match e {
        CelExpr::Ident(name) => name@ != "command"@,
        CelExpr::Literal(_) => true,
        CelExpr::Select { operand, field } => match *operand {
            CelExpr::Ident(name) => name@ != "command"@ || field@ != "args_complete"@,
            _ => is_cautious(*operand),
        },
        CelExpr::List(v) => all_rigid(v),
        CelExpr::Call(c) => is_cautious_call(c),
        CelExpr::Fold(f) => (is_exists(*f) || is_all(*f)) && is_free(f.iter_var@) && is_cautious(
            f.iter_range,
        ) && match f.loop_step {
            CelExpr::Call(step) => step.args@.len() == 2 && is_cautious(step.args@[1]),
            _ => false,
        },
        _ => false,
    }
}

/// Whether a call keeps an answer however the arguments go on.
pub open spec fn is_cautious_call(c: CelCall) -> bool
    decreases c, 0nat,
{
    is_cautious_name(c.func_name@) && (match c.target {
        Some(t) => is_cautious(*t),
        None => true,
    }) && all_cautious(c.args)
}

/// Whether all expressions keep their answers however the arguments go on.
pub open spec fn all_cautious(v: Vec<CelExpr>) -> bool
    decreases v, 0nat,
{
    forall|i: int|
        0 <= i < v@.len() ==> (if 0 <= i < v@.len() {
            is_cautious(#[trigger] v@[i])
        } else {
            true
        })
}

/// The value of a call, given those of its arguments.
proof fn call_is_applied(call: CelCall, c: Map<Seq<char>, Tri>)
    requires
        call.func_name@ != "dropwhile"@,
    ensures
        eval(CelExpr::Call(call), c) == builtin(
            call.func_name@,
            match call.target {
                Some(t) => Some(eval(*t, c)),
                None => None,
            },
            eval_all(call.args, c),
            c,
        ),
        eval_all(call.args, c).len() == call.args@.len(),
        forall|i: int|
            0 <= i < call.args@.len() ==> #[trigger] eval_all(call.args, c)[i] == eval(
                call.args@[i],
                c,
            ),
{
    assert(eval(CelExpr::Call(call), c) == eval_apply(call, c));
}

/// What a rigid expression is does not depend on the command.
proof fn rigid_is_equal(e: CelExpr, c: Map<Seq<char>, Tri>, d: Map<Seq<char>, Tri>)
    requires
        is_rigid(e),
        fuller(c, d),
    ensures
        eval(e, c) == eval(e, d),
    decreases e,
{
    match e {
        CelExpr::List(v) => {
            assert(all_rigid(v));
            assert forall|i: int| 0 <= i < v@.len() implies eval(v@[i], c) == eval(v@[i], d) by {
                assert(is_rigid(v@[i]));
                rigid_is_equal(v@[i], c, d);
            }
            assert(eval_all(v, c) =~= eval_all(v, d));
        },
        CelExpr::Select { operand, field } => {
            assert(eval(*operand, c) == lookup(c, "pane"@));
            assert(eval(*operand, d) == lookup(d, "pane"@));
        },
        _ => {},
    }
}

/// What ends a quantifier early: `true` for `exists`, `false` for `all`.
pub open spec fn ends_with(f: CelFold) -> TriBool {
    if is_exists(f) {
        TriBool::True
    } else {
        TriBool::False
    }
}

/// What a quantifier makes of its value so far and of one more element.
spec fn joined_with(end: TriBool, a: TriBool, b: TriBool) -> TriBool {
    if end == TriBool::True {
        kleene_or(a, b)
    } else {
        kleene_and(a, b)
    }
}

/// A quantifier goes on as long as its value does not end it.
proof fn quantifier_goes_on(f: CelFold, accu: Tri, c: Map<Seq<char>, Tri>)
    requires
        is_exists(f) || is_all(f),
    ensures
        (truth(eval(f.loop_cond, c.insert(f.accu_var@, accu))) == TriBool::False) == (truth(accu)
            == ends_with(f)),
{
    names_differ();
    let bound = c.insert(f.accu_var@, accu);
    if let CelExpr::Call(cond) = f.loop_cond {
        let inner = cond.args@[0];
        call_is_applied(cond, bound);
        assert(eval_all(cond.args, bound)[0] == eval(inner, bound));
        if is_exists(f) {
            if let CelExpr::Call(not) = inner {
                call_is_applied(not, bound);
                assert(eval_all(not.args, bound)[0] == eval(not.args@[0], bound));
                assert(eval(not.args@[0], bound) == accu);
            }
        } else {
            assert(eval(inner, bound) == accu);
        }
    }
    assert(is_exists(f) ==> !is_all(f));
}

/// One step of a quantifier.
proof fn quantifier_steps(f: CelFold, accu: Tri, element: Tri, c: Map<Seq<char>, Tri>)
    requires
        is_exists(f) || is_all(f),
        is_free(f.iter_var@),
    ensures
        ({
            let bound = c.insert(f.accu_var@, accu).insert(f.iter_var@, element);
            eval(f.loop_step, bound) == of_bool(
                joined_with(
                    ends_with(f),
                    truth(accu),
                    truth(eval(argument(f.loop_step, 1), bound)),
                ),
            )
        }),
{
    names_differ();
    let bound = c.insert(f.accu_var@, accu).insert(f.iter_var@, element);
    if let CelExpr::Call(step) = f.loop_step {
        call_is_applied(step, bound);
        assert(eval_all(step.args, bound)[0] == eval(step.args@[0], bound));
        assert(eval_all(step.args, bound)[1] == eval(step.args@[1], bound));
        assert(eval(step.args@[0], bound) == accu);
    }
}

/// Bindings stay as they are related when near values are bound.
proof fn bound_is_fuller(
    c: Map<Seq<char>, Tri>,
    d: Map<Seq<char>, Tri>,
    name: Seq<char>,
    a: Tri,
    b: Tri,
)
    requires
        fuller(c, d),
        near(a, b),
        name != "command"@,
        name != "pane"@,
    ensures
        fuller(c.insert(name, a), d.insert(name, b)),
{
    assert(c.insert(name, a).dom() =~= d.insert(name, b).dom());
}

/// The names that are bound differ.
proof fn bound_names_differ()
    ensures
        "@result"@ != "command"@,
        "@result"@ != "pane"@,
        "command"@ != "pane"@,
{
    reveal_strlit("@result");
    reveal_strlit("command");
    reveal_strlit("pane");
    assert("@result"@[0] == '@');
    assert("command"@[0] == 'c');
    assert("pane"@[0] == 'p');
}

/// A quantifier over a list, and over the same list that goes on.
proof fn quantifier_is_near(
    f: CelFold,
    x: Seq<Tri>,
    y: Seq<Tri>,
    i: int,
    a: Tri,
    b: Tri,
    c: Map<Seq<char>, Tri>,
    d: Map<Seq<char>, Tri>,
)
    requires
        is_exists(f) || is_all(f),
        is_free(f.iter_var@),
        is_cautious(argument(f.loop_step, 1)),
        fuller(c, d),
        x.len() <= y.len(),
        forall|k: int| 0 <= k < x.len() ==> #[trigger] x[k] == y[k],
        0 <= i <= x.len(),
        a == of_bool(truth(a)),
        b == of_bool(truth(b)),
        refines(truth(a), truth(b)),
    ensures
        ({
            let p = fold_from(f, x, i, a, c);
            let q = fold_from(f, y, i, b, d);
            let end = ends_with(f);
            &&& p == of_bool(truth(p))
            &&& truth(p) == end ==> q == of_bool(end)
            &&& truth(a) == TriBool::Unknown || truth(a) == end ==> truth(p) == TriBool::Unknown
                || truth(p) == end
            &&& x.len() == y.len() ==> q == of_bool(truth(q)) && refines(truth(p), truth(q))
        }),
    decreases f, 0int, x.len() - i,
{
    let end = ends_with(f);
    quantifier_goes_on(f, a, c);
    quantifier_goes_on(f, b, d);
    if i < x.len() {
        assert(x[i] == y[i]);
        quantifier_steps(f, a, x[i], c);
        quantifier_steps(f, b, y[i], d);
        if truth(a) != end {
            let ca = c.insert(f.accu_var@, a).insert(f.iter_var@, x[i]);
            let db = d.insert(f.accu_var@, b).insert(f.iter_var@, y[i]);
            bound_names_differ();
            bound_is_fuller(c, d, f.accu_var@, a, b);
            bound_is_fuller(
                c.insert(f.accu_var@, a),
                d.insert(f.accu_var@, b),
                f.iter_var@,
                x[i],
                y[i],
            );
            answer_stands(argument(f.loop_step, 1), ca, db);
            truth_is_near(
                eval(argument(f.loop_step, 1), ca),
                eval(argument(f.loop_step, 1), db),
            );
            let a1 = eval(f.loop_step, ca);
            let b1 = eval(f.loop_step, db);
            if truth(b) != end {
                quantifier_is_near(f, x, y, i + 1, a1, b1, c, d);
            } else {
                quantifier_is_near(f, x, y, i + 1, a1, of_bool(end), c, d);
                quantifier_goes_on(f, of_bool(end), d);
            }
        }
    }
}

/// However the arguments of a command go on, an answer that is known stands: what
/// an expression is with them is what it was, or what was unknown, or a list that
/// could go on.
pub proof fn answer_stands(e: CelExpr, c: Map<Seq<char>, Tri>, d: Map<Seq<char>, Tri>)
    requires
        is_cautious(e),
        fuller(c, d),
    ensures
        near(eval(e, c), eval(e, d)),
    decreases e, 0int, 0int,
{
    match e {
        CelExpr::Ident(_) => {},
        CelExpr::Literal(_) => {},
        CelExpr::Select { operand, field } => {
            match *operand {
                CelExpr::Ident(name) => {
                    assert(eval(*operand, c) == lookup(c, name@));
                    assert(eval(*operand, d) == lookup(d, name@));
                },
                _ => {
                    answer_stands(*operand, c, d);
                },
            }
        },
        CelExpr::List(v) => {
            assert(is_rigid(e));
            rigid_is_equal(e, c, d);
        },
        CelExpr::Call(call) => {
            names_differ();
            assert(is_cautious_call(call));
            call_is_applied(call, c);
            call_is_applied(call, d);
            assert(all_cautious(call.args));
            let a = eval_all(call.args, c);
            let b = eval_all(call.args, d);
            assert forall|i: int| 0 <= i < a.len() implies near(#[trigger] a[i], b[i]) by {
                assert(is_cautious(call.args@[i]));
                answer_stands(call.args@[i], c, d);
            }
            if let Some(t) = call.target {
                answer_stands(*t, c, d);
            }
            call_is_near(
                call.func_name@,
                match call.target {
                    Some(t) => Some(eval(*t, c)),
                    None => None,
                },
                match call.target {
                    Some(t) => Some(eval(*t, d)),
                    None => None,
                },
                a,
                b,
                c,
                d,
            );
        },
        CelExpr::Fold(f) => {
            fold_stands(*f, c, d);
        },
        _ => {},
    }
}

/// The same for a comprehension.
proof fn fold_stands(f: CelFold, c: Map<Seq<char>, Tri>, d: Map<Seq<char>, Tri>)
    requires
        is_exists(f) || is_all(f),
        is_free(f.iter_var@),
        is_cautious(f.iter_range),
        is_cautious(argument(f.loop_step, 1)),
        fuller(c, d),
    ensures
        forall|e: CelExpr|
            e matches CelExpr::Fold(g) && *g == f ==> near(#[trigger] eval(e, c), eval(e, d)),
    decreases f, 1int, 0int,
{
    answer_stands(f.iter_range, c, d);
    let x = eval(f.iter_range, c);
    let y = eval(f.iter_range, d);
    assert forall|e: CelExpr| e matches CelExpr::Fold(g) && *g == f implies near(
        #[trigger] eval(e, c),
        eval(e, d),
    ) by {
        if x is List {
            let init = eval(f.accu_init, c);
            assert(init == eval(f.accu_init, d));
            assert(y is List);
            assert forall|k: int| 0 <= k < x->elements.len() implies #[trigger] x->elements[k]
                == y->elements[k] by {
                elements_are_equal(x, y, k);
            }
            quantifier_is_near(f, x->elements, y->elements, 0, init, init, c, d);
            let p = fold_from(f, x->elements, 0, init, c);
            let q = fold_from(f, y->elements, 0, init, d);
            quantifier_goes_on(f, p, c);
            quantifier_goes_on(f, q, d);
            let accu = if x->exhaustive || truth(p) == ends_with(f) {
                p
            } else {
                Tri::Unknown
            };
            let other = if y->exhaustive || truth(q) == ends_with(f) {
                q
            } else {
                Tri::Unknown
            };
            assert(eval(f.result, c.insert(f.accu_var@, accu)) == accu);
            assert(eval(f.result, d.insert(f.accu_var@, other)) == other);
            assert(eval(e, c) == accu);
            assert(eval(e, d) == other);
        }
    }
}

/// A command with more arguments than are known, and the options that are then
/// read.
pub open spec fn with_more(c: CommandModel, more: Seq<Seq<char>>, getopt: Option<Tri>) -> CommandModel {
    CommandModel { args: c.args + more, args_complete: true, getopt, ..c }
}

/// What is bound for a command whose arguments may go on, and for the command once
/// they have.
pub proof fn more_arguments_are_fuller(
    c: CommandModel,
    more: Seq<Seq<char>>,
    getopt: Option<Tri>,
    pane: PaneModel,
    dirs: Seq<Seq<char>>,
)
    requires
        !c.args_complete,
        c.getopt is Some <==> getopt is Some,
    ensures
        fuller(context_of(c, pane, dirs), context_of(with_more(c, more, getopt), pane, dirs)),
{
    let full = with_more(c, more, getopt);
    let a = context_of(c, pane, dirs);
    let b = context_of(full, pane, dirs);
    bound_names_differ();
    let m = command_value(c, pane)->Object_0;
    let n = command_value(full, pane)->Object_0;
    let known = Seq::new(c.args.len(), |i: int| Tri::Text(c.args[i]));
    let all = Seq::new(full.args.len(), |i: int| Tri::Text(full.args[i]));
    assert(all.subrange(0, known.len() as int) =~= known);
    assert(m.dom() =~= n.dom());
    assert forall|k: Seq<char>| m.dom().contains(k) && k != "args_complete"@ implies near(
        #[trigger] m[k],
        n[k],
    ) by {
        if k == "args"@ {
            field_names_differ();
            assert(m[k] == (Tri::List { elements: known, exhaustive: false }));
            assert(n[k] == (Tri::List { elements: all, exhaustive: true }));
        }
    }
    assert(a.dom() =~= b.dom());
}

/// The names of what is bound for a command differ from that of its arguments.
proof fn field_names_differ()
    ensures
        "args"@ != "args_complete"@,
        "args"@ != "is_pipe_target"@,
        "args"@ != "has_inner"@,
        "args"@ != "effective_user"@,
        "args"@ != "effective_host"@,
        "args"@ != "write_targets"@,
        "args"@ != "read_targets"@,
        "args"@ != "parent"@,
        "args"@ != "getopt"@,
{
    reveal_strlit("args");
    reveal_strlit("args_complete");
    reveal_strlit("is_pipe_target");
    reveal_strlit("has_inner");
    reveal_strlit("effective_user");
    reveal_strlit("effective_host");
    reveal_strlit("write_targets");
    reveal_strlit("read_targets");
    reveal_strlit("parent");
    reveal_strlit("getopt");
    assert("args"@.len() == 4);
    assert("args_complete"@.len() == 13);
    assert("is_pipe_target"@.len() == 14);
    assert("has_inner"@.len() == 9);
    assert("effective_user"@.len() == 14);
    assert("effective_host"@.len() == 14);
    assert("write_targets"@.len() == 13);
    assert("read_targets"@.len() == 12);
    assert("parent"@.len() == 6);
    assert("getopt"@.len() == 6);
}

/// A rule that applies to a command whose arguments may go on applies to it
/// however they do.
pub proof fn rule_applies_however_arguments_go_on(
    rule: CompiledRule,
    c: CommandModel,
    more: Seq<Seq<char>>,
    getopt: Option<Tri>,
    pane: PaneModel,
    dirs: Seq<Seq<char>>,
)
    requires
        !c.args_complete,
        c.getopt is Some <==> getopt is Some,
        is_cautious(rule.ast),
        applies(rule, c, pane, context_of(c, pane, dirs)),
    ensures
        applies(rule, with_more(c, more, getopt), pane, context_of(with_more(c, more, getopt), pane, dirs)),
{
    more_arguments_are_fuller(c, more, getopt, pane, dirs);
    answer_stands(rule.ast, context_of(c, pane, dirs), context_of(with_more(c, more, getopt), pane, dirs));
}

/// The truth of a comprehension's predicate for an element, with that value so
/// far.
pub open spec fn predicate_on(f: CelFold, ctx: Map<Seq<char>, Tri>, element: Tri, so_far: Tri) -> TriBool {
    truth(
        eval(
            argument(f.loop_step, 1),
            ctx.insert(f.accu_var@, so_far).insert(f.iter_var@, element),
        ),
    )
}

/// Whether the predicate has that truth for an element, whatever came before.
pub open spec fn always_on(f: CelFold, ctx: Map<Seq<char>, Tri>, element: Tri, t: TriBool) -> bool {
    forall|so_far: Tri| #[trigger] predicate_on(f, ctx, element, so_far) == t
}

/// What a quantifier comes to over the elements from `i` on.
proof fn quantifier_comes_to(
    f: CelFold,
    x: Seq<Tri>,
    i: int,
    accu: Tri,
    c: Map<Seq<char>, Tri>,
)
    requires
        is_exists(f) || is_all(f),
        is_free(f.iter_var@),
        0 <= i <= x.len(),
        accu == of_bool(truth(accu)),
    ensures
        ({
            let p = fold_from(f, x, i, accu, c);
            let end = ends_with(f);
            &&& p == of_bool(truth(p))
            &&& truth(accu) == end ==> truth(p) == end
            &&& (exists|k: int| i <= k < x.len() && #[trigger] always_on(f, c, x[k], end))
                ==> truth(p) == end
            &&& truth(accu) == kleene_not(end) && (forall|k: int|
                i <= k < x.len() ==> #[trigger] always_on(f, c, x[k], kleene_not(end))) ==> truth(p)
                == kleene_not(end)
        }),
    decreases x.len() - i,
{
    let end = ends_with(f);
    quantifier_goes_on(f, accu, c);
    if i < x.len() && truth(accu) != end {
        quantifier_steps(f, accu, x[i], c);
        let bound = c.insert(f.accu_var@, accu).insert(f.iter_var@, x[i]);
        let next = eval(f.loop_step, bound);
        let here = predicate_on(f, c, x[i], accu);
        assert(here == truth(eval(argument(f.loop_step, 1), bound)));
        quantifier_comes_to(f, x, i + 1, next, c);
        let p = fold_from(f, x, i, accu, c);
        assert(p == fold_from(f, x, i + 1, next, c));
        if exists|k: int| i <= k < x.len() && #[trigger] always_on(f, c, x[k], end) {
            let k = choose|k: int| i <= k < x.len() && #[trigger] always_on(f, c, x[k], end);
            if k == i {
                assert(here == end);
            } else {
                assert(always_on(f, c, x[k], end));
            }
        }
        if truth(accu) == kleene_not(end) && (forall|k: int|
            i <= k < x.len() ==> #[trigger] always_on(f, c, x[k], kleene_not(end))) {
            assert(always_on(f, c, x[i], kleene_not(end)));
            assert(here == kleene_not(end));
        }
    }
}

/// `exists` is true where the predicate is true of an element, and `all` is false
/// where it is false of one, even of a list that may go on. Where it is false, or
/// true, of every element, `exists` is false, or `all` true, if the list is
/// complete; if it may go on, that is unknown.
pub proof fn quantifiers_of_expressions(
    e: CelExpr,
    f: CelFold,
    elements: Seq<Tri>,
    exhaustive: bool,
    c: Map<Seq<char>, Tri>,
)
    requires
        e matches CelExpr::Fold(g) && *g == f,
        is_exists(f) || is_all(f),
        is_free(f.iter_var@),
        eval(f.iter_range, c) == (Tri::List { elements, exhaustive }),
    ensures
        is_exists(f) ==> ends_with(f) == TriBool::True && kleene_not(ends_with(f))
            == TriBool::False,
        is_all(f) ==> ends_with(f) == TriBool::False && kleene_not(ends_with(f)) == TriBool::True,
        (exists|k: int|
            0 <= k < elements.len() && #[trigger] always_on(f, c, elements[k], ends_with(f)))
            ==> truth(eval(e, c)) == ends_with(f),
        (forall|k: int|
            0 <= k < elements.len() ==> #[trigger] always_on(
                f,
                c,
                elements[k],
                kleene_not(ends_with(f)),
            )) ==> truth(eval(e, c)) == (if exhaustive {
            kleene_not(ends_with(f))
        } else {
            TriBool::Unknown
        }),
{
    let init = eval(f.accu_init, c);
    assert(init == of_bool(kleene_not(ends_with(f))));
    quantifier_comes_to(f, elements, 0, init, c);
    let p = fold_from(f, elements, 0, init, c);
    quantifier_goes_on(f, p, c);
    let accu = if exhaustive || truth(p) == ends_with(f) {
        p
    } else {
        Tri::Unknown
    };
    assert(eval(f.result, c.insert(f.accu_var@, accu)) == accu);
    assert(eval(e, c) == accu);
}

} // verus!
