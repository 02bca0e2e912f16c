//! The functions that a policy expression can call, on three-valued values.

use super::args::{optstring_options, parsed, undashed, parse_args, trim_dashes, ArgSpec, ArgStyle, ArgsModel, ParsedArgs};
use super::getopt::{block_end, getopt_of, run_getopt};
use super::path::{is_relative, names_relative, resolve_path, resolved_path};
use super::value::{clone_from, kleene_and, kleene_not, kleene_or, of_bool, tri_eq, tri_equal, tri_unfold, tris, tris_push, truth, Tri, TriBool, TriMap, TriVal};
use crate::text::{chars_of, contains_chars, has_prefix, has_substring, split_by, split_str, starts_with, str_eq, string_of, texts, views};
use vstd::prelude::*;

verus! {

broadcast use tri_unfold;

/// Whether a glob pattern matches a text, as the `globset` crate decides it.
/// A pattern that is no glob, or that does not compile, matches nothing.
pub uninterp spec fn glob_matches(pattern: Seq<char>, text: Seq<char>) -> bool;

/// `globset::Glob::new(pattern)`, whose regular expression
/// `regex::bytes::RegexBuilder` compiles, with `.` matching newlines, and asks
/// about the bytes of `text`: what `globset::GlobMatcher::is_match` does, with
/// an error in place of its panic where the expression is too deep or too large
/// to compile. False where the pattern or its expression does not compile. The
/// result depends on the two texts alone.
#[verifier::external_body]
fn glob_match(pattern: &str, text: &str) -> (r: bool)
    ensures
        r == glob_matches(pattern@, text@),
{
    let glob = match globset::Glob::new(pattern) {
        Ok(g) => g,
        Err(_) => return false,
    };
    match regex::bytes::RegexBuilder::new(glob.regex()).dot_matches_new_line(true).build() {
        Ok(re) => re.is_match(text.as_bytes()),
        Err(_) => false,
    }
}

/// `needle in haystack`.
pub open spec fn member(needle: Tri, haystack: Tri) -> Tri {
    if needle is Unknown || haystack is Unknown {
        Tri::Unknown
    } else {
        match haystack {
            Tri::List { elements, exhaustive } => if exists|i: int|
                0 <= i < elements.len() && tri_equal(needle, #[trigger] elements[i])
                    == TriBool::True {
                Tri::Bool(true)
            } else if !exhaustive || exists|i: int|
                0 <= i < elements.len() && tri_equal(needle, #[trigger] elements[i])
                    == TriBool::Unknown {
                Tri::Unknown
            } else {
                Tri::Bool(false)
            },
            Tri::Object(map) => match needle {
                Tri::Text(key) => Tri::Bool(map.dom().contains(key)),
                _ => Tri::Unknown,
            },
            _ => Tri::Unknown,
        }
    }
}

/// `needle in haystack`.
pub fn eval_in(needle: &TriVal, haystack: &TriVal) -> (r: TriVal)
    ensures
        r@ == member(needle@, haystack@),
{
    match (needle, haystack) {
        (TriVal::Unknown, _) => TriVal::Unknown,
        (_, TriVal::Unknown) => TriVal::Unknown,
        (_, TriVal::List { elements, exhaustive }) => {
            let ghost all = tris(elements@);
            let mut has_unknown: bool = false;
            let mut i: usize = 0;
            while i < elements.len()
                invariant
                    i <= elements@.len(),
                    all == tris(elements@),
                    needle@ !is Unknown,
                    haystack@ == (Tri::List { elements: all, exhaustive: *exhaustive }),
                    has_unknown == exists|j: int|
                        0 <= j < i && tri_equal(needle@, #[trigger] all[j]) == TriBool::Unknown,
                    forall|j: int|
                        0 <= j < i ==> tri_equal(needle@, #[trigger] all[j]) != TriBool::True,
                decreases elements@.len() - i,
            {
                assert(all[i as int] == elements@[i as int]@);
                match tri_eq(needle, &elements[i]) {
                    TriBool::True => {
                        return TriVal::Bool(true);
                    },
                    TriBool::Unknown => {
                        has_unknown = true;
                    },
                    TriBool::False => {},
                }
                i = i + 1;
            }
            if has_unknown || !*exhaustive {
                TriVal::Unknown
            } else {
                TriVal::Bool(false)
            }
        },
        (TriVal::String(key), TriVal::Object(map)) => TriVal::Bool(map.contains_key(key.as_str())),
        _ => TriVal::Unknown,
    }
}

/// A test on two texts: unknown where a side is, false where one is no text.
pub open spec fn text_test(a: Tri, b: Tri, holds: bool) -> Tri {
    if a is Unknown || b is Unknown {
        Tri::Unknown
    } else {
        Tri::Bool(a is Text && b is Text && holds)
    }
}

/// `glob(pattern, text)`.
pub open spec fn glob_value(pattern: Tri, text: Tri) -> Tri {
    text_test(pattern, text, glob_matches(pattern->Text_0, text->Text_0))
}

/// `glob(pattern, text)`.
pub fn eval_glob(pattern: &TriVal, text: &TriVal) -> (r: TriVal)
    ensures
        r@ == glob_value(pattern@, text@),
{
    match (pattern, text) {
        (TriVal::Unknown, _) | (_, TriVal::Unknown) => TriVal::Unknown,
        (TriVal::String(p), TriVal::String(t)) => TriVal::Bool(glob_match(p.as_str(), t.as_str())),
        _ => TriVal::Bool(false),
    }
}

/// `contains(text, part)`.
pub open spec fn contains_value(text: Tri, part: Tri) -> Tri {
    text_test(text, part, has_substring(text->Text_0, part->Text_0))
}

/// `contains(text, part)`.
pub fn eval_contains(text: &TriVal, part: &TriVal) -> (r: TriVal)
    ensures
        r@ == contains_value(text@, part@),
{
    match (text, part) {
        (TriVal::Unknown, _) | (_, TriVal::Unknown) => TriVal::Unknown,
        (TriVal::String(h), TriVal::String(n)) => {
            let hay = chars_of(h.as_str());
            let needle = chars_of(n.as_str());
            TriVal::Bool(contains_chars(hay.as_slice(), needle.as_slice()))
        },
        _ => TriVal::Bool(false),
    }
}

/// `startsWith(text, prefix)`.
pub open spec fn starts_with_value(text: Tri, prefix: Tri) -> Tri {
    text_test(text, prefix, has_prefix(text->Text_0, prefix->Text_0))
}

/// `startsWith(text, prefix)`.
pub fn eval_starts_with(text: &TriVal, prefix: &TriVal) -> (r: TriVal)
    ensures
        r@ == starts_with_value(text@, prefix@),
{
    match (text, prefix) {
        (TriVal::Unknown, _) | (_, TriVal::Unknown) => TriVal::Unknown,
        (TriVal::String(s), TriVal::String(p)) => {
            let text = chars_of(s.as_str());
            let prefix = chars_of(p.as_str());
            TriVal::Bool(starts_with(text.as_slice(), prefix.as_slice()))
        },
        _ => TriVal::Bool(false),
    }
}

/// Whether `arg` is a group of short options with `c` among them.
pub open spec fn is_short_with(arg: Tri, c: char) -> bool {
    match arg {
        Tri::Text(s) => s.len() > 1 && s[0] == '-' && s[1] != '-' && s.subrange(
            1,
            s.len() as int,
        ).contains(c),
        _ => false,
    }
}

/// `has_short_flag(args, flag)`.
pub open spec fn short_flag_value(args: Tri, flag: Tri) -> Tri {
    match flag {
        Tri::Unknown => Tri::Unknown,
        Tri::Text(f) => if f.len() == 0 {
            Tri::Bool(false)
        } else {
            match args {
                Tri::List { elements, exhaustive } => if exists|i: int|
                    0 <= i < elements.len() && is_short_with(#[trigger] elements[i], f[0]) {
                    Tri::Bool(true)
                } else if exhaustive {
                    Tri::Bool(false)
                } else {
                    Tri::Unknown
                },
                Tri::Unknown => Tri::Unknown,
                _ => Tri::Bool(false),
            }
        },
        _ => Tri::Bool(false),
    }
}

/// Whether `arg` is a group of short options with `c` among them.
fn short_with(arg: &TriVal, c: char) -> (r: bool)
    ensures
        r == is_short_with(arg@, c),
{
    match arg {
        TriVal::String(s) => {
            let chars = chars_of(s.as_str());
            if chars.len() <= 1 || chars[0] != '-' || chars[1] == '-' {
                return false;
            }
            let ghost group = s@.subrange(1, s@.len() as int);
            let mut i: usize = 1;
            while i < chars.len()
                invariant
                    1 <= i <= chars@.len(),
                    chars@ == s@,
                    arg@ == Tri::Text(s@),
                    s@.len() > 1,
                    s@[0] == '-',
                    s@[1] != '-',
                    group == s@.subrange(1, s@.len() as int),
                    forall|j: int| 0 <= j < i - 1 ==> #[trigger] group[j] != c,
                decreases chars@.len() - i,
            {
                if chars[i] == c {
                    assert(group[i - 1] == c);
                    return true;
                }
                i = i + 1;
            }
            false
        },
        _ => false,
    }
}

/// `has_short_flag(args, flag)`.
pub fn eval_has_short_flag(args: &TriVal, flag: &TriVal) -> (r: TriVal)
    ensures
        r@ == short_flag_value(args@, flag@),
{
    let c: char = match flag {
        TriVal::String(s) => {
            let chars = chars_of(s.as_str());
            if chars.len() == 0 {
                return TriVal::Bool(false);
            }
            chars[0]
        },
        TriVal::Unknown => {
            return TriVal::Unknown;
        },
        _ => {
            return TriVal::Bool(false);
        },
    };
    match args {
        TriVal::List { elements, exhaustive } => {
            let ghost all = tris(elements@);
            let mut i: usize = 0;
            while i < elements.len()
                invariant
                    i <= elements@.len(),
                    all == tris(elements@),
                    args@ == (Tri::List { elements: all, exhaustive: *exhaustive }),
                    flag@ is Text,
                    flag@->Text_0.len() > 0,
                    c == flag@->Text_0[0],
                    forall|j: int| 0 <= j < i ==> !is_short_with(#[trigger] all[j], c),
                decreases elements@.len() - i,
            {
                assert(all[i as int] == elements@[i as int]@);
                if short_with(&elements[i], c) {
                    assert(is_short_with(args@->elements[i as int], flag@->Text_0[0]));
                    return TriVal::Bool(true);
                }
                i = i + 1;
            }
            if *exhaustive {
                TriVal::Bool(false)
            } else {
                TriVal::Unknown
            }
        },
        TriVal::Unknown => TriVal::Unknown,
        _ => TriVal::Bool(false),
    }
}

/// The text bound to `field` of the object bound to `name`.
pub open spec fn text_field(
    ctx: Map<Seq<char>, Tri>,
    name: Seq<char>,
    field: Seq<char>,
) -> Option<Seq<char>> {
    if ctx.dom().contains(name) {
        match ctx[name] {
            Tri::Object(m) => if m.dom().contains(field) && m[field] is Text {
                Some(m[field]->Text_0)
            } else {
                None
            },
            _ => None,
        }
    } else {
        None
    }
}

/// The text bound to `field` of the object bound to `name`.
fn get_text_field<'a>(ctx: &'a TriMap, name: &str, field: &str) -> (r: Option<&'a str>)
    ensures
        match r {
            Some(s) => text_field(ctx@, name@, field@) == Some(s@),
            None => text_field(ctx@, name@, field@) is None,
        },
{
    match ctx.get(name) {
        Some(TriVal::Object(m)) => match m.get(field) {
            Some(TriVal::String(s)) => Some(s.as_str()),
            _ => None,
        },
        _ => None,
    }
}

/// Whether the pane's directory is bound and cannot be known.
pub open spec fn is_lost(ctx: Map<Seq<char>, Tri>) -> bool {
    ctx.dom().contains("pane"@) && (ctx["pane"@] matches Tri::Object(m) && m.dom().contains("cwd"@)
        && m["cwd"@] is Unknown)
}

/// Whether the pane's directory is bound and cannot be known.
fn lost(ctx: &TriMap) -> (r: bool)
    ensures
        r == is_lost(ctx@),
{
    match ctx.get("pane") {
        Some(TriVal::Object(m)) => match m.get("cwd") {
            Some(TriVal::Unknown) => true,
            _ => false,
        },
        _ => false,
    }
}

/// `path(arg)`: the absolute path that an argument names in the pane; null for
/// an option and for what is no text; unknown for a relative path where the
/// pane's directory cannot be known.
pub open spec fn path_value(arg: Tri, ctx: Map<Seq<char>, Tri>) -> Tri {
    match arg {
        Tri::Unknown => Tri::Unknown,
        Tri::Text(s) => if is_lost(ctx) && is_relative(s) {
            Tri::Unknown
        } else {
            let cwd = match text_field(ctx, "pane"@, "cwd"@) {
                Some(c) => c,
                None => "/"@,
            };
            match resolved_path(s, cwd, text_field(ctx, "pane"@, "user"@)) {
                Some(p) => Tri::Text(p),
                None => Tri::Null,
            }
        },
        _ => Tri::Null,
    }
}

/// `path(arg)`.
pub fn eval_path(arg: &TriVal, ctx: &TriMap) -> (r: TriVal)
    ensures
        r@ == path_value(arg@, ctx@),
{
    match arg {
        TriVal::String(s) => {
            if lost(ctx) && names_relative(s.as_str()) {
                return TriVal::Unknown;
            }
            let cwd = match get_text_field(ctx, "pane", "cwd") {
                Some(c) => c,
                None => "/",
            };
            let user = get_text_field(ctx, "pane", "user");
            match resolve_path(s.as_str(), cwd, user) {
                Some(p) => TriVal::String(p),
                None => TriVal::Null,
            }
        },
        TriVal::Unknown => TriVal::Unknown,
        _ => TriVal::Null,
    }
}

/// `list[index]`.
pub open spec fn index_value(list: Tri, index: Tri) -> Tri {
    match (list, index) {
        (Tri::List { elements, .. }, Tri::Int(i)) => if 0 <= i < elements.len() {
            elements[i]
        } else {
            Tri::Null
        },
        _ => if list is Unknown || index is Unknown {
            Tri::Unknown
        } else {
            Tri::Null
        },
    }
}

/// Whether `i` is a place in a list of `len` elements.
fn in_bounds(i: i64, len: usize) -> (r: bool)
    ensures
        r == (0 <= i < len),
{
    i >= 0 && (i as u64) < (len as u64)
}

/// `list[index]`.
pub fn eval_index(list: &TriVal, index: &TriVal) -> (r: TriVal)
    ensures
        r@ == index_value(list@, index@),
{
    match (list, index) {
        (TriVal::List { elements, .. }, TriVal::Int(i)) => {
            if in_bounds(*i, elements.len()) {
                elements[*i as usize].clone()
            } else {
                TriVal::Null
            }
        },
        (TriVal::Unknown, _) | (_, TriVal::Unknown) => TriVal::Unknown,
        _ => TriVal::Null,
    }
}

/// `or(value, fallback)`: the fallback where the value is null.
pub open spec fn or_value(value: Tri, fallback: Tri) -> Tri {
    if value is Null {
        fallback
    } else {
        value
    }
}

/// `or(value, fallback)`.
pub fn eval_or_func(value: &TriVal, fallback: &TriVal) -> (r: TriVal)
    ensures
        r@ == or_value(value@, fallback@),
{
    match value {
        TriVal::Null => fallback.clone(),
        _ => value.clone(),
    }
}

/// `parts` as text values, cut or padded with nulls on the left to `n`.
pub open spec fn fit_left(parts: Seq<Seq<char>>, n: int) -> Seq<Tri> {
    Seq::new(
        n as nat,
        |i: int|
            if i < n - parts.len() {
                Tri::Null
            } else {
                Tri::Text(parts[i - (n - parts.len())])
            },
    )
}

/// `rsplit(text, sep)` and `rsplit(text, sep, n)`: the parts of a text between
/// separators, or its last `n` parts padded with nulls on the left.
pub open spec fn rsplit_value(text: Tri, sep: Tri, n: Option<Tri>) -> Tri {
    let bad_count = match n {
        Some(Tri::Int(k)) => k <= 0,
        Some(_) => true,
        None => false,
    };
    if bad_count || text is Unknown || sep is Unknown {
        Tri::Unknown
    } else if text is Null || sep is Null {
        Tri::Null
    } else {
        match (text, sep) {
            (Tri::Text(s), Tri::Text(p)) => {
                let parts = split_by(s, p);
                let count = match n {
                    Some(Tri::Int(k)) => k,
                    _ => parts.len() as int,
                };
                Tri::List { elements: fit_left(parts, count), exhaustive: true }
            },
            _ => Tri::Unknown,
        }
    }
}

/// The last `n` of `parts` as values, padded with nulls on the left.
fn fit_parts(parts: &Vec<Vec<char>>, n: u64) -> (r: Vec<TriVal>)
    ensures
        tris(r@) == fit_left(views(parts@), n as int),
{
    let ghost texts = views(parts@);
    let held: usize = parts.len();
    let len: u64 = held as u64;
    let mut out: Vec<TriVal> = Vec::new();
    let mut i: u64 = 0;
    assert(tris(out@) =~= fit_left(texts, n as int).subrange(0, 0));
    while i < n
        invariant
            i <= n,
            len == held == parts@.len(),
            texts == views(parts@),
            tris(out@) == fit_left(texts, n as int).subrange(0, i as int),
        decreases n - i,
    {
        let v = if n > len && i < n - len {
            TriVal::Null
        } else {
            let at: u64 = if n > len {
                i - (n - len)
            } else {
                i + (len - n)
            };
            assert(at < len);
            let part = string_of(parts[at as usize].as_slice());
            assert(part@ == texts[i - (n - len)]);
            TriVal::String(part)
        };
        assert(v@ == fit_left(texts, n as int)[i as int]);
        proof {
            tris_push(out@, v);
        }
        out.push(v);
        i = i + 1;
        assert(tris(out@) =~= fit_left(texts, n as int).subrange(0, i as int));
    }
    assert(tris(out@) =~= fit_left(texts, n as int));
    out
}

/// `rsplit(text, sep)` and `rsplit(text, sep, n)`.
pub fn eval_rsplit(text: &TriVal, sep: &TriVal, n: Option<&TriVal>) -> (r: TriVal)
    ensures
        r@ == rsplit_value(
            text@,
            sep@,
            match n {
                Some(v) => Some(v@),
                None => None,
            },
        ),
{
    let count: Option<u64> = match n {
        None => None,
        Some(TriVal::Int(k)) => {
            if *k <= 0 {
                return TriVal::Unknown;
            }
            Some(*k as u64)
        },
        Some(_) => {
            return TriVal::Unknown;
        },
    };
    match (text, sep) {
        (TriVal::Unknown, _) | (_, TriVal::Unknown) => TriVal::Unknown,
        (TriVal::Null, _) | (_, TriVal::Null) => TriVal::Null,
        (TriVal::String(s), TriVal::String(p)) => {
            let chars = chars_of(s.as_str());
            let mark = chars_of(p.as_str());
            let parts = split_str(chars.as_slice(), mark.as_slice());
            let k: u64 = match count {
                Some(k) => k,
                None => parts.len() as u64,
            };
            let elements = fit_parts(&parts, k);
            TriVal::List { elements, exhaustive: true }
        },
        _ => TriVal::Unknown,
    }
}

/// `after(list, text)`: everything after the first occurrence; null where there
/// is none.
pub open spec fn after_value(list: Tri, mark: Tri) -> Tri {
    match (list, mark) {
        (Tri::List { elements, .. }, Tri::Text(_)) => {
            let i = block_end(elements, 0, seq![mark]);
            if i < elements.len() {
                Tri::List {
                    elements: elements.subrange(i + 1, elements.len() as int),
                    exhaustive: true,
                }
            } else {
                Tri::Null
            }
        },
        _ => if list is Unknown || mark is Unknown {
            Tri::Unknown
        } else {
            Tri::Null
        },
    }
}

/// The place of the first text among `marks` at or after `from`.
fn find_mark(list: &[TriVal], from: usize, marks: &[TriVal]) -> (r: usize)
    requires
        from <= list@.len(),
    ensures
        r == block_end(tris(list@), from as int, tris(marks@)),
        from <= r <= list@.len(),
{
    let mut i: usize = from;
    while i < list.len()
        invariant
            from <= i <= list@.len(),
            block_end(tris(list@), from as int, tris(marks@)) == block_end(
                tris(list@),
                i as int,
                tris(marks@),
            ),
        decreases list@.len() - i,
    {
        assert(tris(list@)[i as int] == list@[i as int]@);
        if let TriVal::String(s) = &list[i] {
            if super::getopt::is_terminator(marks, s.as_str()) {
                return i;
            }
        }
        i = i + 1;
    }
    i
}

/// `after(list, text)`.
pub fn eval_after(list: &TriVal, mark: &TriVal) -> (r: TriVal)
    ensures
        r@ == after_value(list@, mark@),
{
    match (list, mark) {
        (TriVal::List { elements, .. }, TriVal::String(_)) => {
            let marks: Vec<TriVal> = vec![mark.clone()];
            assert(tris(marks@) =~= seq![mark@]);
            let i: usize = find_mark(elements.as_slice(), 0, marks.as_slice());
            if i < elements.len() {
                let rest = clone_from(elements.as_slice(), i + 1);
                TriVal::List { elements: rest, exhaustive: true }
            } else {
                TriVal::Null
            }
        },
        (TriVal::Unknown, _) | (_, TriVal::Unknown) => TriVal::Unknown,
        _ => TriVal::Null,
    }
}

/// `slice(list, n)`: the list from index `n` on.
pub open spec fn slice_value(list: Tri, n: Tri) -> Tri {
    match (list, n) {
        (Tri::List { elements, exhaustive }, Tri::Int(k)) => Tri::List {
            elements: elements.subrange(
                if k < 0 {
                    0
                } else if k > elements.len() {
                    elements.len() as int
                } else {
                    k
                },
                elements.len() as int,
            ),
            exhaustive,
        },
        _ => if list is Unknown || n is Unknown {
            Tri::Unknown
        } else {
            Tri::Null
        },
    }
}

/// The elements from index `n` on.
fn elements_from(elements: &Vec<TriVal>, n: i64) -> (r: Vec<TriVal>)
    ensures
        tris(r@) == tris(elements@).subrange(
            if n < 0 {
                0
            } else if n > elements@.len() {
                elements@.len() as int
            } else {
                n as int
            },
            elements@.len() as int,
        ),
{
    let from: usize = if n < 0 {
        0
    } else if in_bounds(n, elements.len()) {
        n as usize
    } else {
        elements.len()
    };
    clone_from(elements.as_slice(), from)
}

/// `slice(list, n)`.
pub fn eval_slice(list: &TriVal, n: &TriVal) -> (r: TriVal)
    ensures
        r@ == slice_value(list@, n@),
{
    match (list, n) {
        (TriVal::List { elements, exhaustive }, TriVal::Int(k)) => TriVal::List {
            elements: elements_from(elements, *k),
            exhaustive: *exhaustive,
        },
        (TriVal::Unknown, _) | (_, TriVal::Unknown) => TriVal::Unknown,
        _ => TriVal::Null,
    }
}

/// `take_until(list, tokens)`: the elements before the first one that is a
/// text among the tokens.
pub open spec fn take_until_value(list: Tri, tokens: Tri) -> Tri {
    match (list, tokens) {
        (Tri::List { elements, exhaustive }, Tri::List { elements: marks, .. }) => {
            let i = block_end(elements, 0, marks);
            Tri::List {
                elements: elements.subrange(0, i),
                exhaustive: exhaustive || i < elements.len(),
            }
        },
        _ => if list is Unknown || tokens is Unknown {
            Tri::Unknown
        } else {
            Tri::Null
        },
    }
}

/// A copy of `v[from..to]`.
fn clone_range(v: &[TriVal], from: usize, to: usize) -> (r: Vec<TriVal>)
    requires
        from <= to <= v@.len(),
    ensures
        tris(r@) == tris(v@).subrange(from as int, to as int),
{
    let part = vstd::slice::slice_subrange(v, from, to);
    let r = clone_from(part, 0);
    assert(tris(r@) =~= tris(v@).subrange(from as int, to as int));
    r
}

/// `take_until(list, tokens)`.
pub fn eval_take_until(list: &TriVal, tokens: &TriVal) -> (r: TriVal)
    ensures
        r@ == take_until_value(list@, tokens@),
{
    match (list, tokens) {
        (TriVal::List { elements, exhaustive }, TriVal::List { elements: marks, .. }) => {
            let i: usize = find_mark(elements.as_slice(), 0, marks.as_slice());
            let head = clone_range(elements.as_slice(), 0, i);
            TriVal::List { elements: head, exhaustive: *exhaustive || i < elements.len() }
        },
        (TriVal::Unknown, _) | (_, TriVal::Unknown) => TriVal::Unknown,
        _ => TriVal::Null,
    }
}

/// The runs of elements between texts among `marks`, from `i` on. A run before
/// a mark is complete; the last one is as complete as the list.
pub open spec fn groups_from(
    elements: Seq<Tri>,
    i: int,
    marks: Seq<Tri>,
    exhaustive: bool,
) -> Seq<Tri>
    decreases elements.len() + 1 - i,
    when 0 <= i <= elements.len()
{
    let end = block_end(elements, i, marks);
    if i <= end < elements.len() {
        seq![Tri::List { elements: elements.subrange(i, end), exhaustive: true }] + groups_from(
            elements,
            end + 1,
            marks,
            exhaustive,
        )
    } else {
        seq![Tri::List { elements: elements.subrange(i, elements.len() as int), exhaustive }]
    }
}

/// `split_at(list, markers)`: the runs of elements between markers.
pub open spec fn split_at_value(list: Tri, markers: Tri) -> Tri {
    match (list, markers) {
        (Tri::List { elements, exhaustive }, Tri::List { elements: marks, .. }) => Tri::List {
            elements: groups_from(elements, 0, marks, exhaustive),
            exhaustive,
        },
        _ => if list is Unknown || markers is Unknown {
            Tri::Unknown
        } else {
            Tri::Null
        },
    }
}

/// `split_at(list, markers)`.
pub fn eval_split_at(list: &TriVal, markers: &TriVal) -> (r: TriVal)
    ensures
        r@ == split_at_value(list@, markers@),
{
    match (list, markers) {
        (TriVal::List { elements, exhaustive }, TriVal::List { elements: marks, .. }) => {
            let ghost all = tris(elements@);
            let ghost ends = tris(marks@);
            let mut out: Vec<TriVal> = Vec::new();
            let mut i: usize = 0;
            assert(tris(out@) + groups_from(all, 0, ends, *exhaustive) =~= groups_from(
                all,
                0,
                ends,
                *exhaustive,
            ));
            loop
                invariant
                    i <= elements@.len(),
                    all == tris(elements@),
                    ends == tris(marks@),
                    list@ == (Tri::List { elements: all, exhaustive: *exhaustive }),
                    markers@ is List,
                    markers@->elements == ends,
                    tris(out@) + groups_from(all, i as int, ends, *exhaustive) == groups_from(
                        all,
                        0,
                        ends,
                        *exhaustive,
                    ),
                decreases elements@.len() - i,
            {
                let ghost before = tris(out@);
                let ghost start = i as int;
                let end: usize = find_mark(elements.as_slice(), i, marks.as_slice());
                let run = clone_range(elements.as_slice(), i, end);
                let found: bool = end < elements.len();
                let group = TriVal::List { elements: run, exhaustive: found || *exhaustive };
                proof {
                    tris_push(out@, group);
                }
                out.push(group);
                assert(tris(out@) =~= before + seq![group@]);
                if !found {
                    assert(tris(out@) =~= groups_from(all, 0, ends, *exhaustive));
                    return TriVal::List { elements: out, exhaustive: *exhaustive };
                }
                i = end + 1;
                assert(tris(out@) + groups_from(all, i as int, ends, *exhaustive) =~= before
                    + groups_from(all, start, ends, *exhaustive));
            }
        },
        (TriVal::Unknown, _) | (_, TriVal::Unknown) => TriVal::Unknown,
        _ => TriVal::Null,
    }
}

/// `a + b`: the sum of two integers where it fits, or two lists in a row.
pub open spec fn plus_value(a: Tri, b: Tri) -> Tri {
    match (a, b) {
        (Tri::Int(x), Tri::Int(y)) => if i64::MIN <= x + y <= i64::MAX {
            Tri::Int(x + y)
        } else {
            Tri::Unknown
        },
        (
            Tri::List { elements: x, exhaustive: p },
            Tri::List { elements: y, exhaustive: q },
        ) => Tri::List { elements: x + y, exhaustive: p && q },
        _ => Tri::Unknown,
    }
}

/// `a + b`.
pub fn eval_plus(a: &TriVal, b: &TriVal) -> (r: TriVal)
    ensures
        r@ == plus_value(a@, b@),
{
    match (a, b) {
        (TriVal::Int(x), TriVal::Int(y)) => match x.checked_add(*y) {
            Some(sum) => TriVal::Int(sum),
            None => TriVal::Unknown,
        },
        (
            TriVal::List { elements: x, exhaustive: p },
            TriVal::List { elements: y, exhaustive: q },
        ) => {
            let mut out = clone_from(x.as_slice(), 0);
            let mut more = clone_from(y.as_slice(), 0);
            let ghost first = out@;
            let ghost second = more@;
            out.append(&mut more);
            assert(tris(out@) =~= tris(first) + tris(second));
            assert(tris(out@) =~= tris(x@) + tris(y@));
            TriVal::List { elements: out, exhaustive: *p && *q }
        },
        _ => TriVal::Unknown,
    }
}

/// `condition ? a : b`.
pub open spec fn choice_value(condition: Tri, a: Tri, b: Tri) -> Tri {
    match truth(condition) {
        TriBool::True => a,
        TriBool::False => b,
        TriBool::Unknown => Tri::Unknown,
    }
}

/// `condition ? a : b`.
pub fn eval_choice(condition: &TriVal, a: &TriVal, b: &TriVal) -> (r: TriVal)
    ensures
        r@ == choice_value(condition@, a@, b@),
{
    match condition.is_truthy() {
        TriBool::True => a.clone(),
        TriBool::False => b.clone(),
        TriBool::Unknown => TriVal::Unknown,
    }
}

/// Whether the absolute path `p` is `dir` or lies under it.
pub open spec fn within(p: Seq<char>, dir: Seq<char>) -> bool {
    p == dir || dir == seq!['/'] || has_prefix(p, dir + seq!['/'])
}

/// `in_project(path)`: whether a resolved path lies in one of the pane's
/// project directories.
pub open spec fn in_project_value(path: Tri, ctx: Map<Seq<char>, Tri>) -> Tri {
    let dirs = field_value(lookup(ctx, "pane"@), "project_dirs"@);
    match (path, dirs) {
        (Tri::Unknown, _) => Tri::Unknown,
        (Tri::Text(p), Tri::List { elements, .. }) => Tri::Bool(
            exists|i: int|
                0 <= i < elements.len() && (#[trigger] elements[i]) is Text && within(
                    p,
                    elements[i]->Text_0,
                ),
        ),
        (Tri::Text(_), _) => Tri::Unknown,
        _ => Tri::Bool(false),
    }
}

/// The value bound to `name`; unknown where nothing is.
pub open spec fn lookup(ctx: Map<Seq<char>, Tri>, name: Seq<char>) -> Tri {
    if ctx.dom().contains(name) {
        ctx[name]
    } else {
        Tri::Unknown
    }
}

/// `value.field`: null on null, unknown where there is no such field.
pub open spec fn field_value(value: Tri, field: Seq<char>) -> Tri {
    match value {
        Tri::Object(m) => lookup(m, field),
        Tri::Null => Tri::Null,
        _ => Tri::Unknown,
    }
}

/// `value.field`.
pub fn eval_field_access(value: &TriVal, field: &str) -> (r: TriVal)
    ensures
        r@ == field_value(value@, field@),
{
    match value {
        TriVal::Object(m) => match m.get(field) {
            Some(v) => v.clone(),
            None => TriVal::Unknown,
        },
        TriVal::Null => TriVal::Null,
        _ => TriVal::Unknown,
    }
}

/// Whether the absolute path `p` is `dir` or lies under it.
fn lies_within(p: &str, dir: &str) -> (r: bool)
    ensures
        r == within(p@, dir@),
{
    if str_eq(p, dir) {
        return true;
    }
    let mut prefix = chars_of(dir);
    if prefix.len() == 1 && prefix[0] == '/' {
        assert(dir@ =~= seq!['/']);
        return true;
    }
    assert(dir@ != seq!['/']) by {
        assert(seq!['/'].len() == 1 && seq!['/'][0] == '/');
    }
    prefix.push('/');
    assert(prefix@ =~= dir@ + seq!['/']);
    let path = chars_of(p);
    starts_with(path.as_slice(), prefix.as_slice())
}

/// `in_project(path)`.
pub fn eval_in_project(path: &TriVal, ctx: &TriMap) -> (r: TriVal)
    ensures
        r@ == in_project_value(path@, ctx@),
{
    let pane = match ctx.get("pane") {
        Some(p) => p.clone(),
        None => TriVal::Unknown,
    };
    let dirs = eval_field_access(&pane, "project_dirs");
    match (path, &dirs) {
        (TriVal::Unknown, _) => TriVal::Unknown,
        (TriVal::String(p), TriVal::List { elements, .. }) => {
            let ghost all = tris(elements@);
            let mut i: usize = 0;
            while i < elements.len()
                invariant
                    i <= elements@.len(),
                    all == tris(elements@),
                    path@ == Tri::Text(p@),
                    dirs@ == field_value(lookup(ctx@, "pane"@), "project_dirs"@),
                    dirs@ is List,
                    dirs@->elements == all,
                    forall|j: int|
                        0 <= j < i ==> !((#[trigger] all[j]) is Text && within(
                            p@,
                            all[j]->Text_0,
                        )),
                decreases elements@.len() - i,
            {
                assert(all[i as int] == elements@[i as int]@);
                if let TriVal::String(d) = &elements[i] {
                    if lies_within(p.as_str(), d.as_str()) {
                        assert(dirs@->elements[i as int] is Text);
                        return TriVal::Bool(true);
                    }
                }
                i = i + 1;
            }
            TriVal::Bool(false)
        },
        (TriVal::String(_), _) => TriVal::Unknown,
        _ => TriVal::Bool(false),
    }
}

/// The texts among the elements of a list.
pub open spec fn list_texts(elements: Seq<Tri>) -> Seq<Seq<char>>
    decreases elements.len(),
{
    if elements.len() == 0 {
        Seq::empty()
    } else {
        let before = list_texts(elements.drop_last());
        match elements.last() {
            Tri::Text(s) => before.push(s),
            _ => before,
        }
    }
}

/// The texts among the elements of a list.
pub fn strings_of(elements: &[TriVal]) -> (r: Vec<String>)
    ensures
        texts(r@) == list_texts(tris(elements@)),
{
    let ghost all = tris(elements@);
    let mut out: Vec<String> = Vec::new();
    let mut i: usize = 0;
    assert(all.subrange(0, 0) =~= Seq::<Tri>::empty());
    assert(texts(out@) =~= Seq::<Seq<char>>::empty());
    while i < elements.len()
        invariant
            i <= elements@.len(),
            all == tris(elements@),
            texts(out@) == list_texts(all.subrange(0, i as int)),
        decreases elements@.len() - i,
    {
        let ghost upto = all.subrange(0, i + 1);
        let ghost before = texts(out@);
        assert(upto.drop_last() =~= all.subrange(0, i as int));
        assert(upto.last() == elements@[i as int]@);
        if let TriVal::String(s) = &elements[i] {
            out.push(s.clone());
            assert(texts(out@) =~= before.push(s@));
        }
        i = i + 1;
    }
    assert(all.subrange(0, i as int) =~= all);
    out
}

impl ArgsModel {
    /// The value that a policy expression sees.
    pub open spec fn as_tri(self) -> Tri {
        Tri::Object(
            Map::empty().insert(
                "operands"@,
                Tri::List { elements: self.operands, exhaustive: self.exhaustive },
            ).insert("flags"@, Tri::Object(self.flags)).insert(
                "exhaustive"@,
                Tri::Bool(self.exhaustive),
            ),
        )
    }
}

/// Parsed arguments as a policy expression sees them.
pub fn parsed_args_to_trival(parsed: &ParsedArgs) -> (r: TriVal)
    ensures
        r@ == parsed@.as_tri(),
{
    let mut map = TriMap::new();
    let elements = clone_from(parsed.operands.as_slice(), 0);
    assert(tris(elements@) =~= parsed@.operands);
    map.insert("operands".to_owned(), TriVal::List { elements, exhaustive: parsed.exhaustive });
    map.insert("flags".to_owned(), TriVal::Object(parsed.flags.clone()));
    map.insert("exhaustive".to_owned(), TriVal::Bool(parsed.exhaustive));
    TriVal::Object(map)
}

/// `getopt(args, optstring)`, `getopt(args, valued)` and
/// `getopt(args, valued, terminated)`.
pub open spec fn getopt_value(args: Tri, options: Tri, terminated: Option<Tri>) -> Tri {
    match args {
        Tri::Unknown => Tri::Unknown,
        Tri::List { elements, exhaustive } => match options {
            Tri::Text(optstring) => parsed(
                elements,
                ArgStyle::Posix,
                optstring_options(optstring),
                exhaustive,
            ).as_tri(),
            _ => getopt_of(
                elements,
                match options {
                    Tri::List { elements: names, .. } => list_texts(names),
                    _ => Seq::empty(),
                },
                match terminated {
                    Some(Tri::Object(m)) => m,
                    _ => Map::empty(),
                },
                exhaustive,
            ).as_tri(),
        },
        _ => Tri::Null,
    }
}

/// `getopt(args, options)` and `getopt(args, options, terminated)`.
pub fn eval_getopt(args: &TriVal, options: &TriVal, terminated: Option<&TriVal>) -> (r: TriVal)
    ensures
        r@ == getopt_value(
            args@,
            options@,
            match terminated {
                Some(v) => Some(v@),
                None => None,
            },
        ),
{
    match args {
        TriVal::List { elements, exhaustive } => {
            if let TriVal::String(optstring) = options {
                let spec = ArgSpec::posix(optstring.as_str());
                let parsed = parse_args(elements.as_slice(), &spec, *exhaustive);
                return parsed_args_to_trival(&parsed);
            }
            let valued: Vec<String> = match options {
                TriVal::List { elements: names, .. } => strings_of(names.as_slice()),
                _ => Vec::new(),
            };
            assert(options@ is List || texts(valued@) =~= Seq::<Seq<char>>::empty());
            let blocks = match terminated {
                Some(TriVal::Object(m)) => m.clone(),
                _ => TriMap::new(),
            };
            run_getopt(elements.as_slice(), valued.as_slice(), &blocks, *exhaustive)
        },
        TriVal::Unknown => TriVal::Unknown,
        _ => TriVal::Null,
    }
}

/// What an absent option or operand of a getopt result is.
pub open spec fn absent_in(m: Map<Seq<char>, Tri>) -> Tri {
    if m.dom().contains("exhaustive"@) && m["exhaustive"@] == Tri::Bool(true) {
        Tri::Null
    } else {
        Tri::Unknown
    }
}

/// The value of an option in a getopt result: under the name as given, or else
/// under the name without dashes.
pub open spec fn flag_in(m: Map<Seq<char>, Tri>, name: Seq<char>) -> Tri {
    match lookup(m, "flags"@) {
        Tri::Object(flags) => if flags.dom().contains(name) {
            flags[name]
        } else if flags.dom().contains(undashed(name)) {
            flags[undashed(name)]
        } else {
            absent_in(m)
        },
        _ => absent_in(m),
    }
}

/// A method of a getopt result: `value(flag)`, `values(flag)`, `positional(n)`
/// or `operands_from(n)`. `None` where there is no such method.
pub open spec fn getopt_method(
    m: Map<Seq<char>, Tri>,
    method: Seq<char>,
    args: Seq<Tri>,
) -> Option<Tri> {
    let complete = absent_in(m) is Null;
    if method == "value"@ {
        Some(
            if args.len() == 1 && args[0] is Text {
                flag_in(m, args[0]->Text_0)
            } else {
                Tri::Unknown
            },
        )
    } else if method == "values"@ {
        Some(
            if args.len() == 1 && args[0] is Text {
                let none = Tri::List { elements: Seq::empty(), exhaustive: complete };
                match lookup(m, "terminated"@) {
                    Tri::Object(blocks) => if blocks.dom().contains(args[0]->Text_0) {
                        blocks[args[0]->Text_0]
                    } else {
                        none
                    },
                    _ => none,
                }
            } else {
                Tri::Unknown
            },
        )
    } else if method == "positional"@ {
        Some(
            if args.len() == 1 && args[0] is Int {
                match lookup(m, "operands"@) {
                    Tri::List { elements, .. } => if args[0]->Int_0 < 0 {
                        Tri::Null
                    } else if args[0]->Int_0 < elements.len() {
                        elements[args[0]->Int_0]
                    } else {
                        absent_in(m)
                    },
                    _ => absent_in(m),
                }
            } else {
                Tri::Unknown
            },
        )
    } else if method == "operands_from"@ {
        Some(
            if args.len() == 1 && args[0] is Int {
                match lookup(m, "operands"@) {
                    Tri::List { elements, .. } => slice_value(
                        Tri::List { elements, exhaustive: complete },
                        args[0],
                    ),
                    _ => absent_in(m),
                }
            } else {
                Tri::Unknown
            },
        )
    } else {
        None
    }
}

/// What an absent option or operand of a getopt result is.
fn absent_of(map: &TriMap) -> (r: TriVal)
    ensures
        r@ == absent_in(map@),
{
    match map.get("exhaustive") {
        Some(TriVal::Bool(true)) => TriVal::Null,
        _ => TriVal::Unknown,
    }
}

/// The value of an option in a getopt result.
fn flag_of(map: &TriMap, name: &str) -> (r: TriVal)
    ensures
        r@ == flag_in(map@, name@),
{
    if let Some(TriVal::Object(flags)) = map.get("flags") {
        if let Some(v) = flags.get(name) {
            return v.clone();
        }
        let bare = trim_dashes(name);
        if let Some(v) = flags.get(bare.as_str()) {
            return v.clone();
        }
    }
    absent_of(map)
}

/// The blocks of a terminated option in a getopt result.
fn blocks_of(map: &TriMap, name: &str) -> (r: TriVal)
    ensures
        r@ == (match lookup(map@, "terminated"@) {
            Tri::Object(blocks) if blocks.dom().contains(name@) => blocks[name@],
            _ => Tri::List { elements: Seq::empty(), exhaustive: absent_in(map@) is Null },
        }),
{
    if let Some(TriVal::Object(blocks)) = map.get("terminated") {
        if let Some(v) = blocks.get(name) {
            return v.clone();
        }
    }
    let exhaustive = matches!(absent_of(map), TriVal::Null);
    let elements: Vec<TriVal> = Vec::new();
    assert(tris(elements@) =~= Seq::<Tri>::empty());
    TriVal::List { elements, exhaustive }
}

/// A method of a getopt result. `None` where there is no such method.
pub fn eval_getopt_method(map: &TriMap, method: &str, args: &[TriVal]) -> (r: Option<TriVal>)
    ensures
        match r {
            Some(v) => getopt_method(map@, method@, tris(args@)) == Some(v@),
            None => getopt_method(map@, method@, tris(args@)) is None,
        },
{
    assert(args@.len() == 1 ==> tris(args@)[0] == args@[0]@);
    if str_eq(method, "value") {
        if args.len() == 1 {
            if let TriVal::String(name) = &args[0] {
                return Some(flag_of(map, name.as_str()));
            }
        }
        Some(TriVal::Unknown)
    } else if str_eq(method, "values") {
        if args.len() == 1 {
            if let TriVal::String(name) = &args[0] {
                return Some(blocks_of(map, name.as_str()));
            }
        }
        Some(TriVal::Unknown)
    } else if str_eq(method, "positional") {
        if args.len() == 1 {
            if let TriVal::Int(n) = &args[0] {
                if let Some(TriVal::List { elements, .. }) = map.get("operands") {
                    if *n < 0 {
                        return Some(TriVal::Null);
                    }
                    if in_bounds(*n, elements.len()) {
                        assert(tris(elements@)[*n as int] == elements@[*n as int]@);
                        return Some(elements[*n as usize].clone());
                    }
                }
                return Some(absent_of(map));
            }
        }
        Some(TriVal::Unknown)
    } else if str_eq(method, "operands_from") {
        if args.len() == 1 {
            if let TriVal::Int(n) = &args[0] {
                if let Some(TriVal::List { elements, .. }) = map.get("operands") {
                    let exhaustive = matches!(absent_of(map), TriVal::Null);
                    return Some(TriVal::List { elements: elements_from(elements, *n), exhaustive });
                }
                return Some(absent_of(map));
            }
        }
        Some(TriVal::Unknown)
    } else {
        None
    }
}

/// The two arguments of a call `f(a, b)` or `a.f(b)`; both unknown where there
/// are too few.
pub open spec fn two_args(target: Option<Tri>, args: Seq<Tri>) -> (Tri, Tri) {
    if target is Some && args.len() >= 1 {
        (target->0, args[0])
    } else if args.len() >= 2 {
        (args[0], args[1])
    } else {
        (Tri::Unknown, Tri::Unknown)
    }
}

/// The value of a call of `name` on evaluated arguments.
pub open spec fn builtin(
    name: Seq<char>,
    target: Option<Tri>,
    args: Seq<Tri>,
    ctx: Map<Seq<char>, Tri>,
) -> Tri {
    let n = args.len();
    if name == "_==_"@ {
        if n == 2 {
            of_bool(tri_equal(args[0], args[1]))
        } else {
            Tri::Unknown
        }
    } else if name == "_!=_"@ {
        if n == 2 {
            of_bool(kleene_not(tri_equal(args[0], args[1])))
        } else {
            Tri::Unknown
        }
    } else if name == "_&&_"@ {
        if n == 2 {
            of_bool(kleene_and(truth(args[0]), truth(args[1])))
        } else {
            Tri::Unknown
        }
    } else if name == "_||_"@ {
        if n == 2 {
            of_bool(kleene_or(truth(args[0]), truth(args[1])))
        } else {
            Tri::Unknown
        }
    } else if name == "!_"@ {
        if n == 1 {
            of_bool(kleene_not(truth(args[0])))
        } else {
            Tri::Unknown
        }
    } else if name == "@not_strictly_false"@ {
        if n == 1 {
            Tri::Bool(truth(args[0]) != TriBool::False)
        } else {
            Tri::Unknown
        }
    } else if name == "@in"@ {
        if n == 2 {
            member(args[0], args[1])
        } else {
            Tri::Unknown
        }
    } else if name == "_[_]"@ {
        if n == 2 {
            index_value(args[0], args[1])
        } else {
            Tri::Unknown
        }
    } else if name == "_+_"@ {
        if n == 2 {
            plus_value(args[0], args[1])
        } else {
            Tri::Unknown
        }
    } else if name == "_?_:_"@ {
        if n == 3 {
            choice_value(args[0], args[1], args[2])
        } else {
            Tri::Unknown
        }
    } else {
        named_builtin(name, target, args, ctx)
    }
}

/// The value of a call of a function that has a name rather than a symbol.
pub open spec fn named_builtin(
    name: Seq<char>,
    target: Option<Tri>,
    args: Seq<Tri>,
    ctx: Map<Seq<char>, Tri>,
) -> Tri {
    let n = args.len();
    if name == "glob"@ {
        if target is Some {
            if n == 1 {
                glob_value(target->0, args[0])
            } else {
                Tri::Unknown
            }
        } else if n == 2 {
            glob_value(args[0], args[1])
        } else {
            Tri::Unknown
        }
    } else if name == "contains"@ {
        contains_value(two_args(target, args).0, two_args(target, args).1)
    } else if name == "startsWith"@ {
        starts_with_value(two_args(target, args).0, two_args(target, args).1)
    } else if name == "has_short_flag"@ {
        if n >= 2 {
            short_flag_value(args[0], args[1])
        } else {
            Tri::Unknown
        }
    } else if name == "path"@ {
        if n == 1 {
            path_value(args[0], ctx)
        } else {
            Tri::Unknown
        }
    } else if name == "in_project"@ {
        if n == 1 {
            in_project_value(args[0], ctx)
        } else {
            Tri::Unknown
        }
    } else if name == "getopt"@ {
        if n == 2 {
            getopt_value(args[0], args[1], None)
        } else if n == 3 {
            getopt_value(args[0], args[1], Some(args[2]))
        } else {
            Tri::Unknown
        }
    } else if name == "or"@ {
        if n == 2 {
            or_value(args[0], args[1])
        } else {
            Tri::Unknown
        }
    } else if name == "rsplit"@ {
        if n == 2 {
            rsplit_value(args[0], args[1], None)
        } else if n == 3 {
            rsplit_value(args[0], args[1], Some(args[2]))
        } else {
            Tri::Unknown
        }
    } else {
        list_builtin(name, target, args)
    }
}

/// The value of a call of a function on lists, or of a method of a getopt
/// result. Anything else is unknown.
pub open spec fn list_builtin(name: Seq<char>, target: Option<Tri>, args: Seq<Tri>) -> Tri {
    let two = args.len() == 2;
    if name == "after"@ {
        if two {
            after_value(args[0], args[1])
        } else {
            Tri::Unknown
        }
    } else if name == "slice"@ {
        if two {
            slice_value(args[0], args[1])
        } else {
            Tri::Unknown
        }
    } else if name == "take_until"@ {
        if two {
            take_until_value(args[0], args[1])
        } else {
            Tri::Unknown
        }
    } else if name == "split_at"@ {
        if two {
            split_at_value(args[0], args[1])
        } else {
            Tri::Unknown
        }
    } else {
        match target {
            Some(Tri::Object(m)) => if m.dom().contains("operands"@) && m.dom().contains(
                "flags"@,
            ) {
                match getopt_method(m, name, args) {
                    Some(v) => v,
                    None => Tri::Unknown,
                }
            } else {
                Tri::Unknown
            },
            _ => Tri::Unknown,
        }
    }
}

/// The view of an optional value.
pub open spec fn opt_tri(v: Option<TriVal>) -> Option<Tri> {
    match v {
        Some(x) => Some(x@),
        None => None,
    }
}

/// The value of a call of a function on lists, or of a method of a getopt
/// result.
fn call_list_builtin(name: &str, target: &Option<TriVal>, args: &[TriVal]) -> (r: TriVal)
    ensures
        r@ == list_builtin(name@, opt_tri(*target), tris(args@)),
{
    let two: bool = args.len() == 2;
    if str_eq(name, "after") {
        if two {
            eval_after(&args[0], &args[1])
        } else {
            TriVal::Unknown
        }
    } else if str_eq(name, "slice") {
        if two {
            eval_slice(&args[0], &args[1])
        } else {
            TriVal::Unknown
        }
    } else if str_eq(name, "take_until") {
        if two {
            eval_take_until(&args[0], &args[1])
        } else {
            TriVal::Unknown
        }
    } else if str_eq(name, "split_at") {
        if two {
            eval_split_at(&args[0], &args[1])
        } else {
            TriVal::Unknown
        }
    } else {
        if let Some(TriVal::Object(map)) = target {
            if map.contains_key("operands") && map.contains_key("flags") {
                if let Some(v) = eval_getopt_method(map, name, args) {
                    return v;
                }
            }
        }
        TriVal::Unknown
    }
}

/// The value of a call of a function that has a name rather than a symbol.
fn call_named_builtin(name: &str, target: &Option<TriVal>, args: &[TriVal], ctx: &TriMap) -> (r:
    TriVal)
    ensures
        r@ == named_builtin(name@, opt_tri(*target), tris(args@), ctx@),
{
    let n: usize = args.len();
    if str_eq(name, "glob") {
        if let Some(t) = target {
            if n == 1 {
                eval_glob(t, &args[0])
            } else {
                TriVal::Unknown
            }
        } else if n == 2 {
            eval_glob(&args[0], &args[1])
        } else {
            TriVal::Unknown
        }
    } else if str_eq(name, "contains") {
        let (a, b) = extract_two_args(target, args);
        eval_contains(&a, &b)
    } else if str_eq(name, "startsWith") {
        let (a, b) = extract_two_args(target, args);
        eval_starts_with(&a, &b)
    } else if str_eq(name, "has_short_flag") {
        if n >= 2 {
            eval_has_short_flag(&args[0], &args[1])
        } else {
            TriVal::Unknown
        }
    } else if str_eq(name, "path") {
        if n == 1 {
            eval_path(&args[0], ctx)
        } else {
            TriVal::Unknown
        }
    } else if str_eq(name, "in_project") {
        if n == 1 {
            eval_in_project(&args[0], ctx)
        } else {
            TriVal::Unknown
        }
    } else if str_eq(name, "getopt") {
        if n == 2 {
            eval_getopt(&args[0], &args[1], None)
        } else if n == 3 {
            eval_getopt(&args[0], &args[1], Some(&args[2]))
        } else {
            TriVal::Unknown
        }
    } else if str_eq(name, "or") {
        if n == 2 {
            eval_or_func(&args[0], &args[1])
        } else {
            TriVal::Unknown
        }
    } else if str_eq(name, "rsplit") {
        if n == 2 {
            eval_rsplit(&args[0], &args[1], None)
        } else if n == 3 {
            eval_rsplit(&args[0], &args[1], Some(&args[2]))
        } else {
            TriVal::Unknown
        }
    } else {
        call_list_builtin(name, target, args)
    }
}

/// The two arguments of a call `f(a, b)` or `a.f(b)`.
fn extract_two_args(target: &Option<TriVal>, args: &[TriVal]) -> (r: (TriVal, TriVal))
    ensures
        (r.0@, r.1@) == two_args(opt_tri(*target), tris(args@)),
{
    if let Some(t) = target {
        if args.len() >= 1 {
            return (t.clone(), args[0].clone());
        }
    }
    if args.len() >= 2 {
        return (args[0].clone(), args[1].clone());
    }
    (TriVal::Unknown, TriVal::Unknown)
}

/// The value of a call of `name` on evaluated arguments.
pub fn call_builtin(name: &str, target: &Option<TriVal>, args: &[TriVal], ctx: &TriMap) -> (r:
    TriVal)
    ensures
        r@ == builtin(name@, opt_tri(*target), tris(args@), ctx@),
{
    let n: usize = args.len();
    if str_eq(name, "_==_") {
        if n == 2 {
            tri_eq(&args[0], &args[1]).to_trival()
        } else {
            TriVal::Unknown
        }
    } else if str_eq(name, "_!=_") {
        if n == 2 {
            tri_eq(&args[0], &args[1]).not().to_trival()
        } else {
            TriVal::Unknown
        }
    } else if str_eq(name, "_&&_") {
        if n == 2 {
            args[0].is_truthy().and(args[1].is_truthy()).to_trival()
        } else {
            TriVal::Unknown
        }
    } else if str_eq(name, "_||_") {
        if n == 2 {
            args[0].is_truthy().or(args[1].is_truthy()).to_trival()
        } else {
            TriVal::Unknown
        }
    } else if str_eq(name, "!_") {
        if n == 1 {
            args[0].is_truthy().not().to_trival()
        } else {
            TriVal::Unknown
        }
    } else if str_eq(name, "@not_strictly_false") {
        if n == 1 {
            TriVal::Bool(args[0].is_truthy() != TriBool::False)
        } else {
            TriVal::Unknown
        }
    } else if str_eq(name, "@in") {
        if n == 2 {
            eval_in(&args[0], &args[1])
        } else {
            TriVal::Unknown
        }
    } else if str_eq(name, "_[_]") {
        if n == 2 {
            eval_index(&args[0], &args[1])
        } else {
            TriVal::Unknown
        }
    } else if str_eq(name, "_+_") {
        if n == 2 {
            eval_plus(&args[0], &args[1])
        } else {
            TriVal::Unknown
        }
    } else if str_eq(name, "_?_:_") {
        if n == 3 {
            eval_choice(&args[0], &args[1], &args[2])
        } else {
            TriVal::Unknown
        }
    } else {
        call_named_builtin(name, target, args, ctx)
    }
}

} // verus!
