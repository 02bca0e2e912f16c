//! What the operators and functions of policy expressions mean.

use super::args::{optstring_options, parsed, undashed, ArgStyle};
use super::builtins::{
    after_value, builtin, choice_value, contains_value, field_value, getopt_method, getopt_value,
    glob_value, groups_from, in_project_value, index_value, list_texts, member, or_value,
    path_value, plus_value, rsplit_value, short_flag_value, slice_value, split_at_value,
    starts_with_value, take_until_value, within,
};
use super::caution::names_differ;
use super::getopt::{block_end, getopt_of};
use super::path::resolved_path;
use super::value::{truth, Tri, TriBool};
use crate::text::{has_prefix, has_substring, split_by, stands_at};
use vstd::prelude::*;

verus! {

/// The connectives: a conjunction is true where both sides are, and false where
/// one is; a disjunction the other way round; a negation turns true and false
/// about. Anything else is unknown.
pub proof fn connectives_of_expressions(a: Tri, b: Tri, ctx: Map<Seq<char>, Tri>)
    ensures
        ({
            let both = truth(builtin("_&&_"@, None, seq![a, b], ctx));
            let any = truth(builtin("_||_"@, None, seq![a, b], ctx));
            let not = truth(builtin("!_"@, None, seq![a], ctx));
            &&& both == TriBool::True <==> truth(a) == TriBool::True && truth(b) == TriBool::True
            &&& both == TriBool::False <==> truth(a) == TriBool::False || truth(b) == TriBool::False
            &&& any == TriBool::True <==> truth(a) == TriBool::True || truth(b) == TriBool::True
            &&& any == TriBool::False <==> truth(a) == TriBool::False && truth(b) == TriBool::False
            &&& not == TriBool::True <==> truth(a) == TriBool::False
            &&& not == TriBool::False <==> truth(a) == TriBool::True
        }),
        truth(Tri::Bool(true)) == TriBool::True,
        truth(Tri::Bool(false)) == TriBool::False,
        truth(Tri::Unknown) == TriBool::Unknown,
        truth(Tri::Null) == TriBool::False,
{
    names_differ();
    assert(seq![a, b][0] == a && seq![a, b][1] == b && seq![a][0] == a);
}

/// Equality: two texts, numbers or truth values are equal if they are the same;
/// with an unknown side the answer is unknown; null is equal to null alone. What
/// is not equal differs.
pub proof fn equality_of_expressions(a: Tri, b: Tri, ctx: Map<Seq<char>, Tri>)
    ensures
        ({
            let eq = builtin("_==_"@, None, seq![a, b], ctx);
            let ne = builtin("_!=_"@, None, seq![a, b], ctx);
            &&& a is Unknown || b is Unknown ==> eq is Unknown && ne is Unknown
            &&& a matches Tri::Text(x) ==> (b matches Tri::Text(y) ==> eq == Tri::Bool(x == y))
            &&& a matches Tri::Int(x) ==> (b matches Tri::Int(y) ==> eq == Tri::Bool(x == y))
            &&& a matches Tri::Bool(x) ==> (b matches Tri::Bool(y) ==> eq == Tri::Bool(x == y))
            &&& a is Null && !(b is Unknown) ==> eq == Tri::Bool(b is Null)
            &&& truth(eq) == TriBool::True <==> truth(ne) == TriBool::False
            &&& truth(eq) == TriBool::False <==> truth(ne) == TriBool::True
        }),
{
    names_differ();
    assert(seq![a, b][0] == a && seq![a, b][1] == b);
}

/// Membership: a text is in a list that is known to be complete exactly if one of
/// its elements is that text; in a list that may go on it is unknown where none
/// is.
pub proof fn membership_in_a_list(text: Seq<char>, elements: Seq<Tri>, exhaustive: bool)
    requires
        forall|i: int| 0 <= i < elements.len() ==> !((#[trigger] elements[i]) is Unknown),
    ensures
        ({
            let found = member(Tri::Text(text), Tri::List { elements, exhaustive });
            &&& found == Tri::Bool(true) <==> elements.contains(Tri::Text(text))
            &&& !elements.contains(Tri::Text(text)) && exhaustive ==> found == Tri::Bool(false)
            &&& !elements.contains(Tri::Text(text)) && !exhaustive ==> found is Unknown
        }),
{
    let needle = Tri::Text(text);
    if elements.contains(needle) {
        let i = choose|i: int| 0 <= i < elements.len() && elements[i] == needle;
        assert(super::value::tri_equal(needle, elements[i]) == TriBool::True);
    }
    if exists|i: int|
        0 <= i < elements.len() && super::value::tri_equal(needle, #[trigger] elements[i])
            == TriBool::True {
        let i = choose|i: int|
            0 <= i < elements.len() && super::value::tri_equal(needle, #[trigger] elements[i])
                == TriBool::True;
        assert(elements[i] == needle);
    }
    if exists|i: int|
        0 <= i < elements.len() && super::value::tri_equal(needle, #[trigger] elements[i])
            == TriBool::Unknown {
        let i = choose|i: int|
            0 <= i < elements.len() && super::value::tri_equal(needle, #[trigger] elements[i])
                == TriBool::Unknown;
        assert(!(elements[i] is Unknown));
    }
}

/// The tests on texts: a text starts with what it was put together from, and
/// holds it, and a test that holds shows where.
pub proof fn text_tests(front: Seq<char>, part: Seq<char>, rest: Seq<char>, s: Seq<char>)
    ensures
        starts_with_value(Tri::Text(part + rest), Tri::Text(part)) == Tri::Bool(true),
        contains_value(Tri::Text(front + part + rest), Tri::Text(part)) == Tri::Bool(true),
        starts_with_value(Tri::Text(s), Tri::Text(part)) == Tri::Bool(true) ==> part.len() <= s.len()
            && forall|i: int| 0 <= i < part.len() ==> s[i] == part[i],
        contains_value(Tri::Text(s), Tri::Text(part)) == Tri::Bool(true) ==> exists|i: int|
            0 <= i && i + part.len() <= s.len() && #[trigger] s.subrange(i, i + part.len()) == part,
        starts_with_value(Tri::Text(s), Tri::Text(part)) is Bool,
        contains_value(Tri::Text(s), Tri::Text(part)) is Bool,
        starts_with_value(Tri::Unknown, Tri::Text(part)) is Unknown,
        contains_value(Tri::Unknown, Tri::Text(part)) is Unknown,
{
    assert((part + rest).subrange(0, part.len() as int) =~= part);
    let whole = front + part + rest;
    assert(whole.subrange(front.len() as int, front.len() + part.len() as int) =~= part);
    assert(stands_at(whole, part, front.len() as int));
    if has_prefix(s, part) {
        assert forall|i: int| 0 <= i < part.len() implies s[i] == part[i] by {
            assert(s.subrange(0, part.len() as int)[i] == s[i]);
        }
    }
    if has_substring(s, part) {
        let i = choose|i: int| #[trigger] stands_at(s, part, i);
        assert(s.subrange(i, i + part.len()) == part);
    }
}

/// Whether an argument with one dash holds a letter at a place behind it.
pub open spec fn holds_letter(arg: Tri, letter: char, j: int) -> bool {
    arg matches Tri::Text(s) && 1 <= j < s.len() && s[0] == '-' && s[1] != '-' && s[j] == letter
}

/// A short option is given exactly if an argument with one dash holds its letter,
/// alone or with others; where arguments may follow and none does, that is
/// unknown.
pub proof fn short_flags(letter: char, elements: Seq<Tri>, exhaustive: bool, i: int, j: int)
    ensures
        ({
            let r = short_flag_value(
                Tri::List { elements, exhaustive },
                Tri::Text(seq![letter]),
            );
            &&& 0 <= i < elements.len() && holds_letter(elements[i], letter, j) ==> r == Tri::Bool(
                true,
            )
            &&& r == Tri::Bool(true) ==> exists|m: int, n: int|
                0 <= m < elements.len() && #[trigger] holds_letter(elements[m], letter, n)
            &&& (forall|m: int, n: int|
                0 <= m < elements.len() ==> !#[trigger] holds_letter(elements[m], letter, n))
                ==> r == (if exhaustive {
                Tri::Bool(false)
            } else {
                Tri::Unknown
            })
        }),
{
    let f = seq![letter];
    assert(f[0] == letter);
    if 0 <= i < elements.len() && holds_letter(elements[i], letter, j) {
        let s = elements[i]->Text_0;
        assert(s.subrange(1, s.len() as int)[j - 1] == letter);
        assert(super::builtins::is_short_with(elements[i], f[0]));
    }
    if exists|m: int|
        0 <= m < elements.len() && super::builtins::is_short_with(#[trigger] elements[m], f[0]) {
        let m = choose|m: int|
            0 <= m < elements.len() && super::builtins::is_short_with(#[trigger] elements[m], f[0]);
        let s = elements[m]->Text_0;
        let t = s.subrange(1, s.len() as int);
        let k = choose|k: int| 0 <= k < t.len() && t[k] == letter;
        assert(holds_letter(elements[m], letter, k + 1));
    }
    let given = exists|m: int|
        0 <= m < elements.len() && super::builtins::is_short_with(#[trigger] elements[m], f[0]);
    let list = Tri::List { elements, exhaustive };
    if given {
        let m = choose|m: int|
            0 <= m < elements.len() && super::builtins::is_short_with(#[trigger] elements[m], f[0]);
        assert(super::builtins::is_short_with(list->elements[m], Tri::Text(f)->Text_0[0]));
        assert(short_flag_value(list, Tri::Text(f)) == Tri::Bool(true));
    }
    assert(!given && exhaustive ==> short_flag_value(list, Tri::Text(f)) == Tri::Bool(false));
    assert(!given && !exhaustive ==> short_flag_value(list, Tri::Text(f)) is Unknown);
    assert(given ==> exists|m: int, n: int|
        0 <= m < elements.len() && #[trigger] holds_letter(elements[m], letter, n));
}

/// Bindings in which the project directories are those.
pub open spec fn has_dirs(ctx: Map<Seq<char>, Tri>, dirs: Seq<Tri>) -> bool {
    ctx.dom().contains("pane"@) && (ctx["pane"@] matches Tri::Object(m) && m.dom().contains(
        "project_dirs"@,
    ) && (m["project_dirs"@] matches Tri::List { elements, .. } && elements == dirs))
}

/// A path is in the project exactly if it is one of its directories or lies below
/// one: a name that only starts with that of a directory does not.
pub proof fn project_holds_what_lies_below(
    p: Seq<char>,
    dirs: Seq<Tri>,
    ctx: Map<Seq<char>, Tri>,
)
    requires
        has_dirs(ctx, dirs),
    ensures
        in_project_value(Tri::Text(p), ctx) is Bool,
        in_project_value(Tri::Text(p), ctx) == Tri::Bool(true) <==> exists|i: int|
            0 <= i < dirs.len() && ((#[trigger] dirs[i]) matches Tri::Text(d) && (d.len() == 1 && d[0]
                == '/' || p == d || (p.len() > d.len() && p[d.len() as int] == '/' && p.subrange(
                0,
                d.len() as int,
            ) == d))),
        in_project_value(Tri::Unknown, ctx) is Unknown,
        in_project_value(Tri::Null, ctx) == Tri::Bool(false),
{
    assert forall|d: Seq<char>| #[trigger] within(p, d) == (d.len() == 1 && d[0] == '/' || p == d || (
    p.len() > d.len() && p[d.len() as int] == '/' && p.subrange(0, d.len() as int) == d)) by {
        let below = d + seq!['/'];
        if has_prefix(p, below) {
            let q = p.subrange(0, below.len() as int);
            assert(q[d.len() as int] == p[d.len() as int]);
            assert(below[d.len() as int] == '/');
            assert(p.subrange(0, d.len() as int) =~= d) by {
                assert forall|i: int| 0 <= i < d.len() implies p[i] == d[i] by {
                    assert(q[i] == p[i] && below[i] == d[i]);
                }
            }
        }
        if p.len() > d.len() && p[d.len() as int] == '/' && p.subrange(0, d.len() as int) == d {
            assert(p.subrange(0, below.len() as int) =~= below) by {
                assert forall|i: int| 0 <= i < below.len() implies p[i] == below[i] by {
                    if i < d.len() {
                        assert(p.subrange(0, d.len() as int)[i] == p[i]);
                    }
                }
            }
        }
        if d.len() == 1 && d[0] == '/' {
            assert(d =~= seq!['/']);
        }
    }
    if exists|i: int|
        0 <= i < dirs.len() && (#[trigger] dirs[i]) is Text && within(p, dirs[i]->Text_0) {
        let i = choose|i: int|
            0 <= i < dirs.len() && (#[trigger] dirs[i]) is Text && within(p, dirs[i]->Text_0);
        assert(dirs[i] is Text);
    }
    if exists|i: int|
        0 <= i < dirs.len() && ((#[trigger] dirs[i]) matches Tri::Text(d) && (d.len() == 1 && d[0]
            == '/' || p == d || (p.len() > d.len() && p[d.len() as int] == '/' && p.subrange(
            0,
            d.len() as int,
        ) == d))) {
        let i = choose|i: int|
            0 <= i < dirs.len() && ((#[trigger] dirs[i]) matches Tri::Text(d) && (d.len() == 1
                && d[0] == '/' || p == d || (p.len() > d.len() && p[d.len() as int] == '/'
                && p.subrange(0, d.len() as int) == d)));
        assert(within(p, dirs[i]->Text_0));
    }
}

/// Bindings of a pane in that directory with that user.
pub open spec fn is_in(ctx: Map<Seq<char>, Tri>, cwd: Seq<char>, user: Option<Seq<char>>) -> bool {
    ctx.dom().contains("pane"@) && (ctx["pane"@] matches Tri::Object(m) && m.dom().contains("cwd"@)
        && m["cwd"@] == Tri::Text(cwd) && m.dom().contains("user"@) && m["user"@] == (match user {
        Some(u) => Tri::Text(u),
        None => Tri::Null,
    }))
}

/// A path is resolved in the pane's directory and for its user; what names no
/// path is null.
pub proof fn paths_are_of_the_pane(
    arg: Seq<char>,
    cwd: Seq<char>,
    user: Option<Seq<char>>,
    ctx: Map<Seq<char>, Tri>,
)
    requires
        is_in(ctx, cwd, user),
    ensures
        path_value(Tri::Text(arg), ctx) == (match resolved_path(arg, cwd, user) {
            Some(p) => Tri::Text(p),
            None => Tri::Null,
        }),
        path_value(Tri::Unknown, ctx) is Unknown,
        path_value(Tri::Null, ctx) is Null,
        arg.len() > 0 && arg[0] == '-' ==> path_value(Tri::Text(arg), ctx) is Null,
        arg.len() > 0 && arg[0] == '~' && user is None && (arg.len() == 1 || arg[1] == '/')
            ==> path_value(Tri::Text(arg), ctx) is Null,
{
    if arg.len() > 0 && arg[0] == '~' {
        if arg.len() == 1 {
            assert(arg =~= seq!['~']);
        } else if arg[1] == '/' {
            assert(arg.subrange(0, 2) =~= seq!['~', '/']);
        }
    }
}

/// Elements by place, a value or what stands in for null, and the rest of a list.
pub proof fn elements_of_lists(elements: Seq<Tri>, exhaustive: bool, i: int, a: Tri, b: Tri)
    ensures
        ({
            let list = Tri::List { elements, exhaustive };
            &&& 0 <= i < elements.len() ==> index_value(list, Tri::Int(i)) == elements[i]
            &&& 0 <= i <= elements.len() ==> slice_value(list, Tri::Int(i)) == (Tri::List {
                elements: elements.subrange(i, elements.len() as int),
                exhaustive,
            })
            &&& i > elements.len() ==> slice_value(list, Tri::Int(i)) == (Tri::List {
                elements: Seq::empty(),
                exhaustive,
            })
            &&& index_value(list, Tri::Unknown) is Unknown
            &&& slice_value(Tri::Unknown, Tri::Int(i)) is Unknown
        }),
        or_value(Tri::Null, b) == b,
        !(a is Null) ==> or_value(a, b) == a,
{
    assert(elements.subrange(elements.len() as int, elements.len() as int) =~= Seq::<Tri>::empty());
}

/// Where the first mark stands.
proof fn block_ends_at_a_mark(elements: Seq<Tri>, i: int, marks: Seq<Tri>)
    requires
        0 <= i <= elements.len(),
    ensures
        ({
            let e = block_end(elements, i, marks);
            &&& i <= e <= elements.len()
            &&& e < elements.len() ==> elements[e] is Text && marks.contains(elements[e])
            &&& forall|k: int|
                i <= k < e ==> !((#[trigger] elements[k]) is Text && marks.contains(elements[k]))
        }),
    decreases elements.len() - i,
{
    if i < elements.len() && !(elements[i] is Text && marks.contains(elements[i])) {
        block_ends_at_a_mark(elements, i + 1, marks);
    }
}

/// `take_until` yields the elements before the first mark, and all where there is
/// none.
pub proof fn taken_until_a_mark(elements: Seq<Tri>, exhaustive: bool, marks: Seq<Tri>, known: bool)
    ensures
        ({
            let r = take_until_value(
                Tri::List { elements, exhaustive },
                Tri::List { elements: marks, exhaustive: known },
            );
            &&& r is List
            &&& r->elements.len() <= elements.len()
            &&& r->elements == elements.subrange(0, r->elements.len() as int)
            &&& forall|k: int|
                0 <= k < r->elements.len() ==> !((#[trigger] elements[k]) is Text && marks.contains(
                    elements[k],
                ))
            &&& r->elements.len() < elements.len() ==> marks.contains(
                elements[r->elements.len() as int],
            ) && r->exhaustive
            &&& r->elements.len() == elements.len() ==> r->exhaustive == exhaustive
        }),
{
    block_ends_at_a_mark(elements, 0, marks);
}

/// The value of an option that was given is the one that was read, with or without
/// its dash; where it was not given it is null, or unknown where the parse is not
/// certain to have seen all.
pub proof fn option_values(
    m: Map<Seq<char>, Tri>,
    flags: Map<Seq<char>, Tri>,
    name: Seq<char>,
    complete: bool,
)
    requires
        m.dom().contains("flags"@),
        m["flags"@] == Tri::Object(flags),
        m.dom().contains("exhaustive"@),
        m["exhaustive"@] == Tri::Bool(complete),
    ensures
        ({
            let r = getopt_method(m, "value"@, seq![Tri::Text(name)]);
            &&& flags.dom().contains(name) ==> r == Some(flags[name])
            &&& !flags.dom().contains(name) && flags.dom().contains(undashed(name)) ==> r == Some(
                flags[undashed(name)],
            )
            &&& !flags.dom().contains(name) && !flags.dom().contains(undashed(name)) ==> r == Some(
                if complete {
                    Tri::Null
                } else {
                    Tri::Unknown
                },
            )
        }),
        name.len() > 0 && name[0] != '-' ==> undashed(name) == name,
        undashed(seq!['-'] + name) == undashed(name),
{
    assert(seq![Tri::Text(name)][0] == Tri::Text(name));
    let dashed = seq!['-'] + name;
    assert(dashed.drop_first() =~= name);
    assert(dashed[0] == '-');
}

/// The operands of a parse by place: the one that was read, and beyond them null,
/// or unknown where the parse is not certain to have seen all.
pub proof fn operands_by_place(
    m: Map<Seq<char>, Tri>,
    operands: Seq<Tri>,
    known: bool,
    n: int,
    complete: bool,
)
    requires
        m.dom().contains("operands"@),
        m["operands"@] == (Tri::List { elements: operands, exhaustive: known }),
        m.dom().contains("exhaustive"@),
        m["exhaustive"@] == Tri::Bool(complete),
    ensures
        0 <= n < operands.len() ==> getopt_method(m, "positional"@, seq![Tri::Int(n)]) == Some(
            operands[n],
        ),
        n >= operands.len() ==> getopt_method(m, "positional"@, seq![Tri::Int(n)]) == Some(
            if complete {
                Tri::Null
            } else {
                Tri::Unknown
            },
        ),
        0 <= n <= operands.len() ==> getopt_method(m, "operands_from"@, seq![Tri::Int(n)]) == Some(
            Tri::List {
                elements: operands.subrange(n, operands.len() as int),
                exhaustive: complete,
            },
        ),
{
    reveal_strlit("value");
    reveal_strlit("values");
    reveal_strlit("positional");
    reveal_strlit("operands_from");
    assert("value"@.len() == 5 && "values"@.len() == 6 && "positional"@.len() == 10
        && "operands_from"@.len() == 13);
    assert(seq![Tri::Int(n)][0] == Tri::Int(n));
}

/// The functions by their names, called with all arguments in brackets or, where
/// they are about a text, on that text.
pub proof fn functions_by_name(a: Tri, b: Tri, c: Tri, ctx: Map<Seq<char>, Tri>)
    ensures
        builtin("contains"@, None, seq![a, b], ctx) == contains_value(a, b),
        builtin("contains"@, Some(a), seq![b], ctx) == contains_value(a, b),
        builtin("startsWith"@, None, seq![a, b], ctx) == starts_with_value(a, b),
        builtin("startsWith"@, Some(a), seq![b], ctx) == starts_with_value(a, b),
        builtin("glob"@, None, seq![a, b], ctx) == glob_value(a, b),
        builtin("has_short_flag"@, None, seq![a, b], ctx) == short_flag_value(a, b),
        builtin("path"@, None, seq![a], ctx) == path_value(a, ctx),
        builtin("in_project"@, None, seq![a], ctx) == in_project_value(a, ctx),
        builtin("or"@, None, seq![a, b], ctx) == or_value(a, b),
        builtin("slice"@, None, seq![a, b], ctx) == slice_value(a, b),
        builtin("take_until"@, None, seq![a, b], ctx) == take_until_value(a, b),
        builtin("@in"@, None, seq![a, b], ctx) == member(a, b),
        builtin("_[_]"@, None, seq![a, b], ctx) == index_value(a, b),
        builtin("_+_"@, None, seq![a, b], ctx) == plus_value(a, b),
        builtin("_?_:_"@, None, seq![a, b, c], ctx) == choice_value(a, b, c),
        builtin("glob"@, Some(a), seq![b], ctx) == glob_value(a, b),
        builtin("getopt"@, None, seq![a, b], ctx) == getopt_value(a, b, None),
        builtin("getopt"@, None, seq![a, b, c], ctx) == getopt_value(a, b, Some(c)),
        builtin("rsplit"@, None, seq![a, b], ctx) == rsplit_value(a, b, None),
        builtin("rsplit"@, None, seq![a, b, c], ctx) == rsplit_value(a, b, Some(c)),
        builtin("after"@, None, seq![a, b], ctx) == after_value(a, b),
        builtin("split_at"@, None, seq![a, b], ctx) == split_at_value(a, b),
{
    names_differ();
    reveal_strlit("take_until");
    reveal_strlit("split_at");
    reveal_strlit("contains");
    assert("take_until"@.len() == 10 && "take_until"@[0] == 't');
    assert("split_at"@.len() == 8 && "split_at"@[0] == 's' && "contains"@[0] == 'c');
    assert(seq![a, b, c][0] == a && seq![a, b, c][1] == b && seq![a, b, c][2] == c);
    assert(seq![a, b][0] == a && seq![a, b][1] == b && seq![a][0] == a && seq![b][0] == b);
}

/// A glob is asked of the two texts, and is unknown where one of them is.
pub proof fn globs_of_texts(pattern: Seq<char>, text: Seq<char>)
    ensures
        glob_value(Tri::Text(pattern), Tri::Text(text)) == Tri::Bool(
            super::builtins::glob_matches(pattern, text),
        ),
        glob_value(Tri::Text(pattern), Tri::Unknown) is Unknown,
        glob_value(Tri::Text(pattern), Tri::Null) == Tri::Bool(false),
{
}

/// Splitting a list at marks: a run without a mark is one group, and a group in
/// front of a mark is followed by the groups of what stands behind it.
pub proof fn groups_between_marks(
    front: Seq<Tri>,
    mark: Tri,
    rest: Seq<Tri>,
    marks: Seq<Tri>,
    exhaustive: bool,
    complete: bool,
)
    requires
        forall|i: int| 0 <= i < front.len() ==> !marks.contains(#[trigger] front[i]),
        mark is Text,
        marks.contains(mark),
    ensures
        split_at_value(
            (Tri::List { elements: front, exhaustive }),
            (Tri::List { elements: marks, exhaustive: complete }),
        ) == (Tri::List {
            elements: seq![Tri::List { elements: front, exhaustive }],
            exhaustive,
        }),
        split_at_value(
            (Tri::List { elements: rest, exhaustive }),
            (Tri::List { elements: marks, exhaustive: complete }),
        ) matches Tri::List { elements: groups, exhaustive: _ } && split_at_value(
            (Tri::List { elements: front + seq![mark] + rest, exhaustive }),
            (Tri::List { elements: marks, exhaustive: complete }),
        ) == (Tri::List {
            elements: seq![Tri::List { elements: front, exhaustive: true }] + groups,
            exhaustive,
        }),
        split_at_value(Tri::Unknown, (Tri::List { elements: marks, exhaustive: complete })) is Unknown,
{
    let n = front.len() as int;
    let all = front + seq![mark] + rest;
    first_mark_ends(front, 0, n, marks);
    assert(front.subrange(0, n) =~= front);
    assert forall|i: int| 0 <= i < n implies !marks.contains(#[trigger] all[i]) by {
        assert(all[i] == front[i]);
    }
    assert(all[n] == mark);
    first_mark_ends(all, 0, n, marks);
    assert(all.subrange(0, n) =~= front);
    groups_behind(all, rest, n + 1, 0, marks, exhaustive);
}

/// The end of a run is at its first mark, or at the end of the list.
proof fn first_mark_ends(elements: Seq<Tri>, i: int, end: int, marks: Seq<Tri>)
    requires
        0 <= i <= end <= elements.len(),
        end < elements.len() ==> elements[end] is Text && marks.contains(elements[end]),
        forall|j: int| i <= j < end ==> !marks.contains(#[trigger] elements[j]),
    ensures
        block_end(elements, i, marks) == end,
    decreases end - i,
{
    if i < end {
        assert(!marks.contains(elements[i]));
        first_mark_ends(elements, i + 1, end, marks);
    }
}

/// The end of a run does not depend on what stands in front.
proof fn end_behind(all: Seq<Tri>, rest: Seq<Tri>, k: int, i: int, marks: Seq<Tri>)
    requires
        0 <= k <= all.len(),
        rest == all.subrange(k, all.len() as int),
        0 <= i <= rest.len(),
    ensures
        block_end(all, k + i, marks) == k + block_end(rest, i, marks),
        i <= block_end(rest, i, marks) <= rest.len(),
    decreases rest.len() - i,
{
    if i < rest.len() {
        assert(rest[i] == all[k + i]);
        if !(rest[i] is Text && marks.contains(rest[i])) {
            end_behind(all, rest, k, i + 1, marks);
        }
    }
}

/// Nor do the groups.
proof fn groups_behind(
    all: Seq<Tri>,
    rest: Seq<Tri>,
    k: int,
    i: int,
    marks: Seq<Tri>,
    exhaustive: bool,
)
    requires
        0 <= k <= all.len(),
        rest =~= all.subrange(k, all.len() as int),
        0 <= i <= rest.len(),
    ensures
        groups_from(all, k + i, marks, exhaustive) == groups_from(rest, i, marks, exhaustive),
    decreases rest.len() + 1 - i,
{
    end_behind(all, rest, k, i, marks);
    let end = block_end(rest, i, marks);
    assert(all.subrange(k + i, all.len() as int) =~= rest.subrange(i, rest.len() as int));
    if end < rest.len() {
        assert(all.subrange(k + i, k + end) =~= rest.subrange(i, end));
        groups_behind(all, rest, k, end + 1, marks, exhaustive);
    }
}

/// The last parts of a text: as many as asked for, the last one last, and nulls
/// where there are fewer.
pub proof fn last_parts_of_texts(s: Seq<char>, sep: Seq<char>, n: i64, i: int)
    requires
        n > 0,
        0 <= i < n,
    ensures
        rsplit_value(Tri::Text(s), Tri::Text(sep), Some(Tri::Int(n as int))) matches Tri::List {
            elements,
            exhaustive,
        } && elements.len() == n && exhaustive && (i < split_by(s, sep).len() ==> elements[n - 1 - i]
            == Tri::Text(split_by(s, sep)[split_by(s, sep).len() - 1 - i])) && (i >= split_by(
            s,
            sep,
        ).len() ==> elements[n - 1 - i] is Null),
        rsplit_value(Tri::Text(s), Tri::Text(sep), None) matches Tri::List { elements, exhaustive }
            && elements.len() == split_by(s, sep).len() && exhaustive,
        i < split_by(s, sep).len() ==> (rsplit_value(
            Tri::Text(s),
            Tri::Text(sep),
            None,
        ) matches Tri::List { elements, exhaustive } && elements[i] == Tri::Text(
            split_by(s, sep)[i],
        )),
        rsplit_value(Tri::Unknown, Tri::Text(sep), None) is Unknown,
        rsplit_value(Tri::Null, Tri::Text(sep), None) is Null,
        rsplit_value(Tri::Text(s), Tri::Text(sep), Some(Tri::Int(0))) is Unknown,
{
}

/// Sums of numbers and of lists, and choices.
pub proof fn sums_and_choices(
    x: i64,
    y: i64,
    a: Seq<Tri>,
    b: Seq<Tri>,
    p: bool,
    q: bool,
    c: Tri,
    d: Tri,
)
    ensures
        i64::MIN <= x + y <= i64::MAX ==> plus_value(Tri::Int(x as int), Tri::Int(y as int))
            == Tri::Int(x + y),
        !(i64::MIN <= x + y <= i64::MAX) ==> plus_value(Tri::Int(x as int), Tri::Int(y as int))
            is Unknown,
        plus_value(
            (Tri::List { elements: a, exhaustive: p }),
            (Tri::List { elements: b, exhaustive: q }),
        ) == (Tri::List { elements: a + b, exhaustive: p && q }),
        choice_value(Tri::Bool(true), c, d) == c,
        choice_value(Tri::Bool(false), c, d) == d,
        choice_value(Tri::Unknown, c, d) is Unknown,
{
}

/// A field is what the object holds under its name; nothing is known of one that
/// it does not hold, and null has null in every field.
pub proof fn fields_of_objects(m: Map<Seq<char>, Tri>, field: Seq<char>)
    ensures
        m.dom().contains(field) ==> field_value(Tri::Object(m), field) == m[field],
        !m.dom().contains(field) ==> field_value(Tri::Object(m), field) is Unknown,
        field_value(Tri::Null, field) is Null,
        field_value(Tri::Unknown, field) is Unknown,
{
}

/// What stands behind the first occurrence of a text; null where it does not occur.
pub proof fn taken_behind_a_mark(front: Seq<Tri>, mark: Seq<char>, rest: Seq<Tri>, exhaustive: bool)
    requires
        forall|i: int| 0 <= i < front.len() ==> #[trigger] front[i] != Tri::Text(mark),
    ensures
        after_value(
            (Tri::List { elements: front + seq![Tri::Text(mark)] + rest, exhaustive }),
            Tri::Text(mark),
        ) == (Tri::List { elements: rest, exhaustive: true }),
        after_value((Tri::List { elements: front, exhaustive }), Tri::Text(mark)) is Null,
        after_value(Tri::Unknown, Tri::Text(mark)) is Unknown,
{
    let n = front.len() as int;
    let t = Tri::Text(mark);
    let marks = seq![t];
    let all = front + marks + rest;
    assert(marks[0] == t);
    assert forall|i: int| 0 <= i < n implies !marks.contains(#[trigger] front[i]) by {}
    assert forall|i: int| 0 <= i < n implies !marks.contains(#[trigger] all[i]) by {
        assert(all[i] == front[i]);
    }
    assert(all[n] == t);
    first_mark_ends(front, 0, n, marks);
    first_mark_ends(all, 0, n, marks);
    assert(all.subrange(n + 1, all.len() as int) =~= rest);
}

/// The blocks of a terminated option in a parse; none where it was not given.
pub proof fn blocks_by_option(
    m: Map<Seq<char>, Tri>,
    blocks: Map<Seq<char>, Tri>,
    name: Seq<char>,
    complete: bool,
)
    requires
        m.dom().contains("terminated"@),
        m["terminated"@] == Tri::Object(blocks),
        m.dom().contains("exhaustive"@),
        m["exhaustive"@] == Tri::Bool(complete),
    ensures
        blocks.dom().contains(name) ==> getopt_method(m, "values"@, seq![Tri::Text(name)]) == Some(
            blocks[name],
        ),
        !blocks.dom().contains(name) ==> getopt_method(m, "values"@, seq![Tri::Text(name)]) == Some(
            (Tri::List { elements: Seq::empty(), exhaustive: complete }),
        ),
{
    reveal_strlit("value");
    reveal_strlit("values");
    assert("value"@.len() == 5 && "values"@.len() == 6);
    assert(seq![Tri::Text(name)][0] == Tri::Text(name));
}

/// Arguments are parsed by an option string as a shell's `getopts` does, and by a
/// list of the options that take a value otherwise.
pub proof fn arguments_are_parsed(
    elements: Seq<Tri>,
    exhaustive: bool,
    optstring: Seq<char>,
    names: Seq<Tri>,
    complete: bool,
    terminated: Map<Seq<char>, Tri>,
)
    ensures
        ({
            let args = Tri::List { elements, exhaustive };
            let options = Tri::List { elements: names, exhaustive: complete };
            &&& getopt_value(args, Tri::Text(optstring), None) == parsed(
                elements,
                ArgStyle::Posix,
                optstring_options(optstring),
                exhaustive,
            ).as_tri()
            &&& getopt_value(args, options, None) == getopt_of(
                elements,
                list_texts(names),
                Map::empty(),
                exhaustive,
            ).as_tri()
            &&& getopt_value(args, options, Some(Tri::Object(terminated))) == getopt_of(
                elements,
                list_texts(names),
                terminated,
                exhaustive,
            ).as_tri()
            &&& getopt_value(Tri::Unknown, options, None) is Unknown
        }),
{
}

/// What cannot be known: whether a path lies in a project whose directories are not
/// known, and which path a relative one is in a directory that is not known. A key
/// is in an object exactly where the object holds it.
pub proof fn unknown_places(
    p: Seq<char>,
    pane: Map<Seq<char>, Tri>,
    ctx: Map<Seq<char>, Tri>,
    m: Map<Seq<char>, Tri>,
    key: Seq<char>,
)
    requires
        ctx.dom().contains("pane"@),
        ctx["pane"@] == Tri::Object(pane),
    ensures
        pane.dom().contains("project_dirs"@) && pane["project_dirs"@] is Unknown
            ==> in_project_value(Tri::Text(p), ctx) is Unknown,
        pane.dom().contains("cwd"@) && pane["cwd"@] is Unknown && p.len() > 0 && p[0] != '-' && p[0]
            != '/' && p[0] != '~' ==> path_value(Tri::Text(p), ctx) is Unknown,
        member(Tri::Text(key), Tri::Object(m)) == Tri::Bool(m.dom().contains(key)),
{
    if p.len() > 0 && p[0] != '~' {
        if has_prefix(p, seq!['~', '/']) {
            assert(p.subrange(0, 2)[0] == p[0]);
            assert(seq!['~', '/'][0] == '~');
        }
        assert(seq!['~'][0] == '~');
    }
}

} // verus!
