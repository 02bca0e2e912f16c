//! Strings as sequences of characters: conversion, comparison, search,
//! splitting and trimming.

use vstd::prelude::*;
use vstd::slice::slice_subrange;
use vstd::string::StringExecFns;

verus! {

/// `String::push` appends one character.
pub assume_specification[ std::string::String::push ](s: &mut std::string::String, c: char)
    ensures
        final(s)@ == old(s)@.push(c),
;

/// The characters of `s`.
pub fn chars_of(s: &str) -> (r: Vec<char>)
    ensures
        r@ == s@,
{
    let mut out: Vec<char> = Vec::new();
    for c in it: s.chars()
        invariant
            it.seq() == s@,
            out@ == s@.subrange(0, it.index() as int),
    {
        out.push(c);
    }
    assert(out@ =~= s@);
    out
}

/// The string made of `v`.
pub fn string_of(v: &[char]) -> (r: String)
    ensures
        r@ == v@,
{
    let mut out = String::new();
    let mut i: usize = 0;
    while i < v.len()
        invariant
            i <= v@.len(),
            out@ == v@.subrange(0, i as int),
        decreases v@.len() - i,
    {
        out.push(v[i]);
        i = i + 1;
        assert(out@ =~= v@.subrange(0, i as int));
    }
    assert(out@ =~= v@);
    out
}

/// The string made of `v[from..to]`.
pub fn substring(v: &[char], from: usize, to: usize) -> (r: String)
    requires
        from <= to <= v@.len(),
    ensures
        r@ == v@.subrange(from as int, to as int),
{
    string_of(slice_subrange(v, from, to))
}

/// A copy of `v[from..to]`.
pub fn copy_range(v: &[char], from: usize, to: usize) -> (r: Vec<char>)
    requires
        from <= to <= v@.len(),
    ensures
        r@ == v@.subrange(from as int, to as int),
{
    let mut out: Vec<char> = Vec::new();
    let mut i: usize = from;
    while i < to
        invariant
            from <= i <= to <= v@.len(),
            out@ == v@.subrange(from as int, i as int),
        decreases to - i,
    {
        out.push(v[i]);
        i = i + 1;
        assert(out@ =~= v@.subrange(from as int, i as int));
    }
    out
}

/// Whether two character slices are the same.
pub fn chars_eq(a: &[char], b: &[char]) -> (r: bool)
    ensures
        r == (a@ == b@),
{
    if a.len() != b.len() {
        return false;
    }
    let mut i: usize = 0;
    while i < a.len()
        invariant
            i <= a@.len(),
            a@.len() == b@.len(),
            forall|j: int| 0 <= j < i ==> a@[j] == b@[j],
        decreases a@.len() - i,
    {
        if a[i] != b[i] {
            return false;
        }
        i = i + 1;
    }
    assert(a@ =~= b@);
    true
}

/// Whether two strings hold the same characters.
pub fn str_eq(a: &str, b: &str) -> (r: bool)
    ensures
        r == (a@ == b@),
{
    let x = a.as_bytes();
    let y = b.as_bytes();
    proof {
        vstd::utf8::encode_utf8_decode_utf8(a@);
        vstd::utf8::encode_utf8_decode_utf8(b@);
    }
    if x.len() != y.len() {
        return false;
    }
    let mut i: usize = 0;
    while i < x.len()
        invariant
            i <= x@.len(),
            x@.len() == y@.len(),
            x@ == vstd::utf8::encode_utf8(a@),
            y@ == vstd::utf8::encode_utf8(b@),
            forall|j: int| 0 <= j < i ==> x@[j] == y@[j],
        decreases x@.len() - i,
    {
        if x[i] != y[i] {
            return false;
        }
        i = i + 1;
    }
    assert(x@ =~= y@);
    true
}

/// Whether `p` is a prefix of `s`.
pub open spec fn has_prefix(s: Seq<char>, p: Seq<char>) -> bool {
    p.len() <= s.len() && s.subrange(0, p.len() as int) == p
}

/// Whether `p` is a suffix of `s`.
pub open spec fn has_suffix(s: Seq<char>, p: Seq<char>) -> bool {
    p.len() <= s.len() && s.subrange(s.len() - p.len(), s.len() as int) == p
}

/// Whether `p` stands in `s` at `i`.
pub open spec fn stands_at(s: Seq<char>, p: Seq<char>, i: int) -> bool {
    0 <= i && i + p.len() <= s.len() && s.subrange(i, i + p.len()) == p
}

/// Whether `p` stands anywhere in `s`.
pub open spec fn has_substring(s: Seq<char>, p: Seq<char>) -> bool {
    exists|i: int| #[trigger] stands_at(s, p, i)
}

/// The first index at or after `from` where `p` stands in `s`; `s.len() + 1`
/// where there is none.
pub open spec fn find_from(s: Seq<char>, p: Seq<char>, from: int) -> int
    decreases s.len() + 1 - from,
{
    if from > s.len() || from < 0 {
        s.len() as int + 1
    } else if stands_at(s, p, from) {
        from
    } else {
        find_from(s, p, from + 1)
    }
}

/// Whether `p` stands in `s` at `i`.
pub fn chars_at(s: &[char], p: &[char], i: usize) -> (r: bool)
    requires
        i <= s@.len(),
    ensures
        r == stands_at(s@, p@, i as int),
{
    if p.len() > s.len() - i {
        return false;
    }
    let mut k: usize = 0;
    while k < p.len()
        invariant
            k <= p@.len(),
            i + p@.len() <= s@.len(),
            s@.len() <= usize::MAX,
            forall|j: int| 0 <= j < k ==> s@[i + j] == p@[j],
        decreases p@.len() - k,
    {
        if s[i + k] != p[k] {
            assert(s@.subrange(i as int, i + p@.len())[k as int] != p@[k as int]);
            return false;
        }
        k = k + 1;
    }
    assert(s@.subrange(i as int, i + p@.len()) =~= p@);
    true
}

/// Whether `s` starts with `p`.
pub fn starts_with(s: &[char], p: &[char]) -> (r: bool)
    ensures
        r == has_prefix(s@, p@),
{
    chars_at(s, p, 0)
}

/// Whether `s` ends with `p`.
pub fn ends_with(s: &[char], p: &[char]) -> (r: bool)
    ensures
        r == has_suffix(s@, p@),
{
    if p.len() > s.len() {
        return false;
    }
    chars_at(s, p, s.len() - p.len())
}

/// The first place of `p` in `s` at or after `from`.
pub fn find_chars(s: &[char], p: &[char], from: usize) -> (r: Option<usize>)
    requires
        from <= s@.len(),
    ensures
        match r {
            Some(i) => i == find_from(s@, p@, from as int) && i <= s@.len() && from <= i
                && stands_at(s@, p@, i as int),
            None => find_from(s@, p@, from as int) == s@.len() + 1,
        },
{
    let mut i: usize = from;
    let n: usize = s.len();
    loop
        invariant
            from <= i <= n,
            n == s@.len(),
            find_from(s@, p@, from as int) == find_from(s@, p@, i as int),
        decreases n - i,
    {
        if chars_at(s, p, i) {
            return Some(i);
        }
        if i == n {
            assert(find_from(s@, p@, i + 1) == s@.len() + 1);
            return None;
        }
        i = i + 1;
    }
}

/// `find_from` finds a place exactly where there is one, and the first one.
pub proof fn find_from_is_first(s: Seq<char>, p: Seq<char>, from: int)
    requires
        0 <= from,
    ensures
        ({
            let i = find_from(s, p, from);
            if exists|j: int| from <= j && #[trigger] stands_at(s, p, j) {
                stands_at(s, p, i) && from <= i && forall|j: int|
                    from <= j < i ==> !#[trigger] stands_at(s, p, j)
            } else {
                i == s.len() + 1
            }
        }),
    decreases s.len() + 1 - from,
{
    if from <= s.len() && !stands_at(s, p, from) {
        find_from_is_first(s, p, from + 1);
        if exists|j: int| from <= j && #[trigger] stands_at(s, p, j) {
            let j = choose|j: int| from <= j && #[trigger] stands_at(s, p, j);
            assert(from + 1 <= j && stands_at(s, p, j));
        }
    }
}

/// Whether `p` stands anywhere in `s`.
pub fn contains_chars(s: &[char], p: &[char]) -> (r: bool)
    ensures
        r == has_substring(s@, p@),
{
    proof {
        find_from_is_first(s@, p@, 0);
    }
    match find_chars(s, p, 0) {
        Some(_) => true,
        None => {
            assert(forall|i: int| #[trigger] stands_at(s@, p@, i) ==> 0 <= i);
            false
        },
    }
}

/// The first index of `c` in `s`; `s.len()` where there is none.
pub open spec fn index_of_char(s: Seq<char>, c: char) -> int
    decreases s.len(),
{
    if s.len() == 0 {
        0
    } else if s[0] == c {
        0
    } else {
        1 + index_of_char(s.drop_first(), c)
    }
}

/// `index_of_char` is the first place of `c`.
pub proof fn index_of_char_is_first(s: Seq<char>, c: char)
    ensures
        0 <= index_of_char(s, c) <= s.len(),
        index_of_char(s, c) < s.len() ==> s[index_of_char(s, c)] == c,
        forall|j: int| 0 <= j < index_of_char(s, c) ==> s[j] != c,
        index_of_char(s, c) == s.len() <==> !s.contains(c),
    decreases s.len(),
{
    if s.len() > 0 && s[0] != c {
        let rest = s.drop_first();
        index_of_char_is_first(rest, c);
        assert forall|j: int| 0 <= j < index_of_char(s, c) implies s[j] != c by {
            if j > 0 {
                assert(rest[j - 1] == s[j]);
            }
        }
        if s.contains(c) {
            let j = choose|j: int| 0 <= j < s.len() && s[j] == c;
            assert(rest[j - 1] == c);
        }
    }
}

/// A place that holds `c` and has no `c` before it is `index_of_char`.
pub proof fn index_of_char_unique(s: Seq<char>, c: char, i: int)
    requires
        0 <= i <= s.len(),
        forall|j: int| 0 <= j < i ==> s[j] != c,
        i < s.len() ==> s[i] == c,
    ensures
        index_of_char(s, c) == i,
{
    index_of_char_is_first(s, c);
}

/// The first index of `c` in `s`; `s.len()` where there is none.
pub fn find_char(s: &[char], c: char) -> (r: usize)
    ensures
        r == index_of_char(s@, c),
        r <= s@.len(),
        r < s@.len() ==> s@[r as int] == c,
{
    let mut i: usize = 0;
    while i < s.len() && s[i] != c
        invariant
            i <= s@.len(),
            forall|j: int| 0 <= j < i ==> s@[j] != c,
        decreases s@.len() - i,
    {
        i = i + 1;
    }
    proof {
        index_of_char_unique(s@, c, i as int);
    }
    i
}

/// The parts of `s` between occurrences of `c`.
pub open spec fn split_on(s: Seq<char>, c: char) -> Seq<Seq<char>>
    decreases s.len(),
    via split_on_shrinks
{
    let i = index_of_char(s, c);
    if i >= s.len() {
        seq![s]
    } else {
        seq![s.subrange(0, i)] + split_on(s.subrange(i + 1, s.len() as int), c)
    }
}

#[via_fn]
proof fn split_on_shrinks(s: Seq<char>, c: char) {
    index_of_char_is_first(s, c);
}

/// The characters of each part.
pub open spec fn views(v: Seq<Vec<char>>) -> Seq<Seq<char>> {
    Seq::new(v.len(), |i: int| v[i]@)
}

/// The parts of `s` between occurrences of `c`.
pub fn split_char(s: &[char], c: char) -> (r: Vec<Vec<char>>)
    ensures
        views(r@) == split_on(s@, c),
{
    let mut out: Vec<Vec<char>> = Vec::new();
    let mut from: usize = 0;
    assert(s@.subrange(0, s@.len() as int) =~= s@);
    assert(views(out@) + split_on(s@, c) =~= split_on(s@, c));
    loop
        invariant
            from <= s@.len(),
            views(out@) + split_on(s@.subrange(from as int, s@.len() as int), c) == split_on(
                s@,
                c,
            ),
        decreases s@.len() - from,
    {
        let rest = slice_subrange(s, from, s.len());
        let i: usize = find_char(rest, c);
        let ghost before = out@;
        if i >= rest.len() {
            let part = copy_range(s, from, s.len());
            out.push(part);
            assert(views(out@) =~= views(before) + seq![rest@]);
            return out;
        }
        let part = copy_range(s, from, from + i);
        out.push(part);
        assert(rest@.subrange(0, i as int) =~= part@);
        assert(views(out@) =~= views(before) + seq![part@]);
        assert(rest@.subrange(i + 1, rest@.len() as int) =~= s@.subrange(
            from + i + 1,
            s@.len() as int,
        ));
        from = from + i + 1;
        assert(views(out@) + split_on(s@.subrange(from as int, s@.len() as int), c) =~= views(
            before,
        ) + split_on(rest@, c));
    }
}

/// The parts of `s` between occurrences of the non-empty `sep`, taken from the
/// left without overlap.
pub open spec fn split_at_each(s: Seq<char>, sep: Seq<char>) -> Seq<Seq<char>>
    decreases s.len(),
    when sep.len() > 0
    via split_at_each_shrinks
{
    let i = find_from(s, sep, 0);
    if i > s.len() {
        seq![s]
    } else {
        seq![s.subrange(0, i)] + split_at_each(s.subrange(i + sep.len(), s.len() as int), sep)
    }
}

#[via_fn]
proof fn split_at_each_shrinks(s: Seq<char>, sep: Seq<char>) {
    find_from_is_first(s, sep, 0);
}

/// The parts of `s` between occurrences of `sep`. An empty `sep` stands before,
/// between and after all characters.
pub open spec fn split_by(s: Seq<char>, sep: Seq<char>) -> Seq<Seq<char>> {
    if sep.len() == 0 {
        seq![Seq::<char>::empty()] + Seq::new(s.len(), |i: int| seq![s[i]]) + seq![
            Seq::<char>::empty(),
        ]
    } else {
        split_at_each(s, sep)
    }
}

/// The parts of `s` between occurrences of `sep`.
pub fn split_str(s: &[char], sep: &[char]) -> (r: Vec<Vec<char>>)
    ensures
        views(r@) == split_by(s@, sep@),
{
    let mut out: Vec<Vec<char>> = Vec::new();
    if sep.len() == 0 {
        let empty = copy_range(s, 0, 0);
        assert(empty@ =~= Seq::<char>::empty());
        out.push(empty);
        let mut k: usize = 0;
        let ghost head = seq![Seq::<char>::empty()];
        assert(views(out@) =~= head + Seq::new(0, |i: int| seq![s@[i]]));
        while k < s.len()
            invariant
                k <= s@.len(),
                head == seq![Seq::<char>::empty()],
                views(out@) == head + Seq::new(k as nat, |i: int| seq![s@[i]]),
            decreases s@.len() - k,
        {
            let ghost before = views(out@);
            let part = copy_range(s, k, k + 1);
            assert(part@ =~= seq![s@[k as int]]);
            out.push(part);
            assert(views(out@) =~= before.push(part@));
            k = k + 1;
            assert(views(out@) =~= head + Seq::new(k as nat, |i: int| seq![s@[i]]));
        }
        let ghost before = views(out@);
        let last = copy_range(s, 0, 0);
        out.push(last);
        assert(last@ =~= Seq::<char>::empty());
        assert(views(out@) =~= before + seq![Seq::<char>::empty()]);
        return out;
    }
    let mut from: usize = 0;
    assert(s@.subrange(0, s@.len() as int) =~= s@);
    assert(views(out@) + split_at_each(s@, sep@) =~= split_at_each(s@, sep@));
    loop
        invariant
            from <= s@.len(),
            sep@.len() > 0,
            views(out@) + split_at_each(s@.subrange(from as int, s@.len() as int), sep@)
                == split_at_each(s@, sep@),
        decreases s@.len() - from,
    {
        let rest = slice_subrange(s, from, s.len());
        let ghost before = out@;
        match find_chars(rest, sep, 0) {
            None => {
                let part = copy_range(s, from, s.len());
                out.push(part);
                assert(views(out@) =~= views(before) + seq![rest@]);
                return out;
            },
            Some(i) => {
                let part = copy_range(s, from, from + i);
                out.push(part);
                assert(rest@.subrange(0, i as int) =~= part@);
                assert(views(out@) =~= views(before) + seq![part@]);
                assert(rest@.subrange(i + sep@.len(), rest@.len() as int) =~= s@.subrange(
                    from + i + sep@.len(),
                    s@.len() as int,
                ));
                from = from + i + sep.len();
                assert(views(out@) + split_at_each(
                    s@.subrange(from as int, s@.len() as int),
                    sep@,
                ) =~= views(before) + split_at_each(rest@, sep@));
            },
        }
    }
}

/// The characters of an optional string.
pub open spec fn opt_text(s: Option<String>) -> Option<Seq<char>> {
    match s {
        Some(t) => Some(t@),
        None => None,
    }
}

/// The characters of each string.
pub open spec fn texts(v: Seq<String>) -> Seq<Seq<char>> {
    Seq::new(v.len(), |i: int| v[i]@)
}

/// A copy of a list of strings.
pub fn clone_texts(v: &[String]) -> (r: Vec<String>)
    ensures
        texts(r@) == texts(v@),
{
    let mut out: Vec<String> = Vec::new();
    let mut i: usize = 0;
    while i < v.len()
        invariant
            i <= v@.len(),
            out@.len() == i,
            forall|j: int| 0 <= j < i ==> (#[trigger] out@[j])@ == v@[j]@,
        decreases v@.len() - i,
    {
        out.push(v[i].clone());
        i = i + 1;
    }
    assert(texts(out@) =~= texts(v@));
    out
}

/// Whether two optional strings are the same.
pub fn opt_eq(a: &Option<String>, b: &Option<String>) -> (r: bool)
    ensures
        r == (opt_text(*a) == opt_text(*b)),
{
    match (a, b) {
        (Some(x), Some(y)) => str_eq(x.as_str(), y.as_str()),
        (None, None) => true,
        _ => false,
    }
}

/// Whether `c` is white space (Unicode property White_Space).
pub open spec fn white_space(c: char) -> bool {
    let n = c as u32;
    9 <= n <= 13 || n == 32 || n == 0x85 || n == 0xA0 || n == 0x1680 || 0x2000 <= n <= 0x200A || n
        == 0x2028 || n == 0x2029 || n == 0x202F || n == 0x205F || n == 0x3000
}

/// Whether `c` is white space (Unicode property White_Space).
pub fn is_white_space(c: char) -> (r: bool)
    ensures
        r == white_space(c),
{
    let n: u32 = c as u32;
    (9 <= n && n <= 13) || n == 32 || n == 0x85 || n == 0xA0 || n == 0x1680 || (0x2000 <= n && n
        <= 0x200A) || n == 0x2028 || n == 0x2029 || n == 0x202F || n == 0x205F || n == 0x3000
}

/// `s` without leading white space.
pub open spec fn trim_start(s: Seq<char>) -> Seq<char>
    decreases s.len(),
{
    if s.len() > 0 && white_space(s[0]) {
        trim_start(s.drop_first())
    } else {
        s
    }
}

/// `s` without trailing white space.
pub open spec fn trim_end(s: Seq<char>) -> Seq<char>
    decreases s.len(),
{
    if s.len() > 0 && white_space(s.last()) {
        trim_end(s.drop_last())
    } else {
        s
    }
}

/// `s` without leading and trailing white space.
pub open spec fn trimmed(s: Seq<char>) -> Seq<char> {
    trim_end(trim_start(s))
}

/// Trimming at the end leaves what stands before the white space there.
pub proof fn trim_end_is_prefix(s: Seq<char>, n: int)
    requires
        0 <= n <= s.len(),
        forall|i: int| n <= i < s.len() ==> white_space(#[trigger] s[i]),
        n > 0 ==> !white_space(s[n - 1]),
    ensures
        trim_end(s) == s.subrange(0, n),
    decreases s.len(),
{
    if n < s.len() {
        trim_end_is_prefix(s.drop_last(), n);
        assert(s.drop_last().subrange(0, n) =~= s.subrange(0, n));
    } else {
        assert(s.subrange(0, n) =~= s);
    }
}

/// Trimming at the start leaves what stands behind the white space there.
pub proof fn trim_start_is_suffix(s: Seq<char>, n: int)
    requires
        0 <= n <= s.len(),
        forall|i: int| 0 <= i < n ==> white_space(#[trigger] s[i]),
        n < s.len() ==> !white_space(s[n]),
    ensures
        trim_start(s) == s.subrange(n, s.len() as int),
    decreases s.len(),
{
    if n > 0 {
        trim_start_is_suffix(s.drop_first(), n - 1);
        assert(s.drop_first().subrange(n - 1, s.len() - 1) =~= s.subrange(n, s.len() as int));
    } else {
        assert(s.subrange(n, s.len() as int) =~= s);
    }
}

/// `s` without trailing white space.
pub fn trim_end_chars(s: &[char]) -> (r: &[char])
    ensures
        r@ == trim_end(s@),
{
    let mut to: usize = s.len();
    assert(s@.subrange(0, to as int) =~= s@);
    while to > 0 && is_white_space(s[to - 1])
        invariant
            to <= s@.len(),
            trim_end(s@) == trim_end(s@.subrange(0, to as int)),
        decreases to,
    {
        assert(s@.subrange(0, to as int).drop_last() =~= s@.subrange(0, to - 1));
        to = to - 1;
    }
    slice_subrange(s, 0, to)
}

/// `s` without leading and trailing white space.
pub fn trim_chars(s: &[char]) -> (r: &[char])
    ensures
        r@ == trimmed(s@),
{
    let mut from: usize = 0;
    assert(s@.subrange(0, s@.len() as int) =~= s@);
    while from < s.len() && is_white_space(s[from])
        invariant
            from <= s@.len(),
            trim_start(s@) == trim_start(s@.subrange(from as int, s@.len() as int)),
        decreases s@.len() - from,
    {
        assert(s@.subrange(from as int, s@.len() as int).drop_first() =~= s@.subrange(
            from + 1,
            s@.len() as int,
        ));
        from = from + 1;
    }
    trim_end_chars(slice_subrange(s, from, s.len()))
}

/// `s` without leading and trailing white space.
pub fn trim(s: &str) -> (r: String)
    ensures
        r@ == trimmed(s@),
{
    let chars = chars_of(s);
    string_of(trim_chars(chars.as_slice()))
}

/// The decimal digits of `n`.
pub open spec fn decimal(n: nat) -> Seq<char>
    decreases n,
{
    if n < 10 {
        seq![digit_char(n)]
    } else {
        decimal(n / 10).push(digit_char(n % 10))
    }
}

/// The digit of value `d`.
pub open spec fn digit_char(d: nat) -> char {
    if d == 0 {
        '0'
    } else if d == 1 {
        '1'
    } else if d == 2 {
        '2'
    } else if d == 3 {
        '3'
    } else if d == 4 {
        '4'
    } else if d == 5 {
        '5'
    } else if d == 6 {
        '6'
    } else if d == 7 {
        '7'
    } else if d == 8 {
        '8'
    } else {
        '9'
    }
}

/// The digit of value `d`.
fn digit(d: u64) -> (r: char)
    requires
        d < 10,
    ensures
        r == digit_char(d as nat),
{
    if d == 0 {
        '0'
    } else if d == 1 {
        '1'
    } else if d == 2 {
        '2'
    } else if d == 3 {
        '3'
    } else if d == 4 {
        '4'
    } else if d == 5 {
        '5'
    } else if d == 6 {
        '6'
    } else if d == 7 {
        '7'
    } else if d == 8 {
        '8'
    } else {
        '9'
    }
}

/// Append the decimal digits of `n`.
fn push_decimal(out: &mut String, n: u64)
    ensures
        final(out)@ == old(out)@ + decimal(n as nat),
    decreases n,
{
    if n >= 10 {
        push_decimal(out, n / 10);
    }
    out.push(digit(n % 10));
    assert(out@ =~= old(out)@ + decimal(n as nat));
}

/// The decimal digits of `n`.
pub fn decimal_string(n: u64) -> (r: String)
    ensures
        r@ == decimal(n as nat),
{
    let mut out = String::new();
    push_decimal(&mut out, n);
    assert(out@ =~= decimal(n as nat));
    out
}

/// Whether `c` is a decimal digit.
pub open spec fn is_digit(c: char) -> bool {
    '0' <= c && c <= '9'
}

/// Whether `s` holds digits alone, and at least one.
pub open spec fn all_digits(s: Seq<char>) -> bool {
    s.len() > 0 && forall|i: int| 0 <= i < s.len() ==> is_digit(#[trigger] s[i])
}

/// The value of a run of digits.
pub open spec fn digits_value(s: Seq<char>) -> int
    decreases s.len(),
{
    if s.len() == 0 {
        0
    } else {
        10 * digits_value(s.drop_last()) + (s.last() as int - '0' as int)
    }
}

/// The decimal digits of a number are digits, and they are its value.
pub proof fn decimal_is_read(n: nat)
    ensures
        decimal(n).len() > 0,
        forall|i: int| 0 <= i < decimal(n).len() ==> is_digit(#[trigger] decimal(n)[i]),
        digits_value(decimal(n)) == n,
    decreases n,
{
    reveal_with_fuel(digits_value, 2);
    if n >= 10 {
        decimal_is_read(n / 10);
        assert(decimal(n).drop_last() =~= decimal(n / 10));
    } else {
        assert(decimal(n).drop_last() =~= Seq::<char>::empty());
    }
}

/// The number that `s` writes, where it is one that fits.
pub open spec fn parsed_u64(s: Seq<char>) -> Option<u64> {
    if all_digits(s) && digits_value(s) <= u64::MAX {
        Some(digits_value(s) as u64)
    } else {
        None
    }
}

/// One more digit never makes the value smaller.
pub proof fn digits_value_grows(s: Seq<char>, n: int)
    requires
        0 <= n <= s.len(),
        forall|i: int| 0 <= i < s.len() ==> is_digit(#[trigger] s[i]),
    ensures
        0 <= digits_value(s.subrange(0, n)) <= digits_value(s),
    decreases s.len(),
{
    if n < s.len() {
        digits_value_grows(s.drop_last(), n);
        assert(s.drop_last().subrange(0, n) =~= s.subrange(0, n));
        assert(is_digit(s[s.len() - 1]));
    } else {
        assert(s.subrange(0, n) =~= s);
        if n > 0 {
            digits_value_grows(s.drop_last(), n - 1);
            assert(is_digit(s[s.len() - 1]));
        }
    }
}

/// The number that `s` writes, where it is one that fits.
pub fn parse_u64(s: &[char]) -> (r: Option<u64>)
    ensures
        r == parsed_u64(s@),
{
    let mut value: u64 = 0;
    let mut fits: bool = true;
    let mut i: usize = 0;
    assert(s@.subrange(0, 0) =~= Seq::<char>::empty());
    while i < s.len()
        invariant
            i <= s@.len(),
            forall|k: int| 0 <= k < i ==> is_digit(#[trigger] s@[k]),
            fits ==> value == digits_value(s@.subrange(0, i as int)),
            !fits ==> digits_value(s@.subrange(0, i as int)) > u64::MAX,
        decreases s@.len() - i,
    {
        let c: char = s[i];
        if !('0' <= c && c <= '9') {
            assert(!is_digit(s@[i as int]));
            return None;
        }
        let ghost run = s@.subrange(0, i + 1);
        assert(run.drop_last() =~= s@.subrange(0, i as int));
        proof {
            digits_value_grows(run, run.len() - 1);
            assert(run.subrange(0, run.len() - 1) =~= run.drop_last());
        }
        if fits {
            let d: u64 = (c as u64) - ('0' as u64);
            match value.checked_mul(10) {
                Some(t) => match t.checked_add(d) {
                    Some(v) => {
                        value = v;
                    },
                    None => {
                        fits = false;
                    },
                },
                None => {
                    fits = false;
                },
            }
        }
        i = i + 1;
    }
    assert(s@.subrange(0, i as int) =~= s@);
    if i > 0 && fits {
        Some(value)
    } else {
        None
    }
}

/// The texts of `parts` with `sep` between them.
pub open spec fn joined(parts: Seq<Seq<char>>, sep: Seq<char>) -> Seq<char>
    decreases parts.len(),
{
    if parts.len() == 0 {
        Seq::empty()
    } else if parts.len() == 1 {
        parts[0]
    } else {
        joined(parts.drop_last(), sep) + sep + parts.last()
    }
}

/// The strings with `sep` between them.
pub fn join(parts: &[String], sep: &str) -> (r: String)
    ensures
        r@ == joined(texts(parts@), sep@),
{
    let ghost all = texts(parts@);
    let mut out = String::new();
    let mut i: usize = 0;
    assert(all.subrange(0, 0) =~= Seq::<Seq<char>>::empty());
    while i < parts.len()
        invariant
            i <= parts@.len(),
            all == texts(parts@),
            out@ == joined(all.subrange(0, i as int), sep@),
        decreases parts@.len() - i,
    {
        let ghost upto = all.subrange(0, i + 1);
        assert(upto.drop_last() =~= all.subrange(0, i as int));
        assert(upto.last() == parts@[i as int]@);
        if i > 0 {
            out.append(sep);
        } else {
            assert(out@ + upto.last() =~= upto[0]);
        }
        out.append(parts[i].as_str());
        i = i + 1;
    }
    assert(all.subrange(0, i as int) =~= all);
    out
}

/// `std::str::from_utf8`: the text that `bytes` encode, where they are valid
/// UTF-8.
#[verifier::external_body]
pub(crate) fn utf8_text(bytes: &[u8]) -> (r: Option<String>)
    ensures
        match r {
            Some(s) => vstd::utf8::valid_utf8(bytes@) && s@ == vstd::utf8::decode_utf8(bytes@),
            None => !vstd::utf8::valid_utf8(bytes@),
        },
{
    std::str::from_utf8(bytes).ok().map(|s| s.to_owned())
}

/// The text that bytes encode, where they are valid UTF-8.
pub open spec fn utf8_of(bytes: Seq<u8>) -> Option<Seq<char>> {
    if vstd::utf8::valid_utf8(bytes) {
        Some(vstd::utf8::decode_utf8(bytes))
    } else {
        None
    }
}

/// The text that `String::from_utf8_lossy` makes of bytes.
pub uninterp spec fn lossy_text(bytes: Seq<u8>) -> Seq<char>;

/// `String::from_utf8_lossy`: what is valid UTF-8 is decoded; what is not is
/// replaced, in a way that depends on the bytes alone.
#[verifier::external_body]
pub(crate) fn utf8_lossy(bytes: &[u8]) -> (r: String)
    ensures
        r@ == lossy_text(bytes@),
        vstd::utf8::valid_utf8(bytes@) ==> r@ == vstd::utf8::decode_utf8(bytes@),
{
    String::from_utf8_lossy(bytes).into_owned()
}

/// The number that `s` writes with an optional sign, where it fits an `i32`.
pub open spec fn parsed_i32(s: Seq<char>) -> Option<i32> {
    if s.len() > 0 && (s[0] == '-' || s[0] == '+') {
        let digits = s.drop_first();
        let value = if s[0] == '-' {
            -digits_value(digits)
        } else {
            digits_value(digits)
        };
        if all_digits(digits) && i32::MIN <= value <= i32::MAX {
            Some(value as i32)
        } else {
            None
        }
    } else if all_digits(s) && digits_value(s) <= i32::MAX {
        Some(digits_value(s) as i32)
    } else {
        None
    }
}

/// The number that `s` writes with an optional sign, where it fits an `i32`.
pub fn parse_i32(s: &str) -> (r: Option<i32>)
    ensures
        r == parsed_i32(s@),
{
    let chars = chars_of(s);
    let n: usize = chars.len();
    let signed: bool = n > 0 && (chars[0] == '-' || chars[0] == '+');
    let from: usize = if signed {
        1
    } else {
        0
    };
    let digits = slice_subrange(chars.as_slice(), from, n);
    assert(signed ==> digits@ =~= s@.drop_first());
    assert(!signed ==> digits@ =~= s@);
    proof {
        if all_digits(digits@) {
            digits_value_grows(digits@, 0);
        }
    }
    match parse_u64(digits) {
        Some(v) => {
            if signed && chars[0] == '-' {
                if v <= 2_147_483_648 {
                    Some((-(v as i64)) as i32)
                } else {
                    None
                }
            } else if v <= 2_147_483_647 {
                Some(v as i32)
            } else {
                None
            }
        },
        None => None,
    }
}

/// The last index of `c` in `s`; -1 where there is none.
pub open spec fn last_index_of_char(s: Seq<char>, c: char) -> int
    decreases s.len(),
{
    if s.len() == 0 {
        -1
    } else if s.last() == c {
        s.len() - 1
    } else {
        last_index_of_char(s.drop_last(), c)
    }
}

/// The last index of `c` in `s`.
pub fn rfind_char(s: &[char], c: char) -> (r: Option<usize>)
    ensures
        match r {
            Some(i) => i == last_index_of_char(s@, c) && i < s@.len() && s@[i as int] == c,
            None => last_index_of_char(s@, c) == -1,
        },
{
    let mut n: usize = s.len();
    assert(s@.subrange(0, n as int) =~= s@);
    while n > 0
        invariant
            n <= s@.len(),
            last_index_of_char(s@, c) == last_index_of_char(s@.subrange(0, n as int), c),
        decreases n,
    {
        assert(s@.subrange(0, n as int).drop_last() =~= s@.subrange(0, n - 1));
        if s[n - 1] == c {
            return Some(n - 1);
        }
        n = n - 1;
    }
    None
}

/// A line without the carriage return at its end.
pub open spec fn without_cr(s: Seq<char>) -> Seq<char> {
    if s.len() > 0 && s.last() == '\r' {
        s.drop_last()
    } else {
        s
    }
}

/// The lines of a text. A line ends with a line feed, or with a carriage return
/// and a line feed; after the last of these nothing need follow.
pub open spec fn lines_of(s: Seq<char>) -> Seq<Seq<char>>
    decreases s.len(),
    via lines_of_shrinks
{
    let i = index_of_char(s, '\n');
    if s.len() == 0 {
        Seq::empty()
    } else if i >= s.len() {
        seq![s]
    } else {
        seq![without_cr(s.subrange(0, i))] + lines_of(s.subrange(i + 1, s.len() as int))
    }
}

#[via_fn]
proof fn lines_of_shrinks(s: Seq<char>) {
    index_of_char_is_first(s, '\n');
}

/// The lines of a text.
pub fn split_lines(text: &str) -> (r: Vec<String>)
    ensures
        texts(r@) == lines_of(text@),
{
    let chars = chars_of(text);
    let s = chars.as_slice();
    let n: usize = s.len();
    let mut out: Vec<String> = Vec::new();
    let mut from: usize = 0;
    assert(s@.subrange(0, n as int) =~= s@);
    assert(texts(out@) + lines_of(s@) =~= lines_of(s@));
    while from < n
        invariant
            from <= n == s@.len(),
            texts(out@) + lines_of(s@.subrange(from as int, n as int)) == lines_of(s@),
        decreases n - from,
    {
        let rest = slice_subrange(s, from, n);
        let i: usize = find_char(rest, '\n');
        let ghost before = out@;
        if i >= rest.len() {
            out.push(string_of(rest));
            assert(texts(out@) =~= texts(before) + seq![rest@]);
            from = n;
            assert(s@.subrange(n as int, n as int).len() == 0);
            assert(lines_of(s@.subrange(n as int, n as int)) =~= Seq::empty());
            assert(texts(out@) + lines_of(s@.subrange(n as int, n as int)) =~= texts(out@));
        } else {
            let end: usize = if i > 0 && rest[i - 1] == '\r' {
                i - 1
            } else {
                i
            };
            let line = substring(rest, 0, end);
            assert(line@ =~= without_cr(rest@.subrange(0, i as int)));
            out.push(line);
            assert(texts(out@) =~= texts(before) + seq![line@]);
            assert(rest@.subrange(i + 1, rest@.len() as int) =~= s@.subrange(
                from + i + 1,
                n as int,
            ));
            from = from + i + 1;
            assert(texts(out@) + lines_of(s@.subrange(from as int, n as int)) =~= texts(before)
                + lines_of(rest@));
        }
    }
    assert(s@.subrange(n as int, n as int).len() == 0);
    assert(texts(out@) + lines_of(s@.subrange(n as int, n as int)) =~= texts(out@));
    out
}

/// The number that `s` writes with an optional plus sign, where it fits a `u32`.
pub open spec fn parsed_u32(s: Seq<char>) -> Option<u32> {
    let digits = if s.len() > 0 && s[0] == '+' {
        s.drop_first()
    } else {
        s
    };
    if all_digits(digits) && digits_value(digits) <= u32::MAX {
        Some(digits_value(digits) as u32)
    } else {
        None
    }
}

/// The number that `s` writes with an optional plus sign, where it fits a `u32`.
pub fn parse_u32(s: &[char]) -> (r: Option<u32>)
    ensures
        r == parsed_u32(s@),
{
    let n: usize = s.len();
    let signed: bool = n > 0 && s[0] == '+';
    let digits = if signed {
        slice_subrange(s, 1, n)
    } else {
        s
    };
    assert(signed ==> digits@ =~= s@.drop_first());
    proof {
        if all_digits(digits@) {
            digits_value_grows(digits@, 0);
        }
    }
    match parse_u64(digits) {
        Some(v) => if v <= 0xffff_ffff {
            Some(v as u32)
        } else {
            None
        },
        None => None,
    }
}

/// The runs of characters of a text that are not white space.
pub open spec fn words_of(s: Seq<char>) -> Seq<Seq<char>>
    decreases s.len(),
{
    if s.len() == 0 {
        Seq::empty()
    } else if white_space(s.last()) {
        words_of(s.drop_last())
    } else {
        let i = word_start(s);
        if 0 <= i < s.len() {
            words_of(s.subrange(0, i)).push(s.subrange(i, s.len() as int))
        } else {
            Seq::empty()
        }
    }
}

/// Where the word at the end of a text starts.
pub open spec fn word_start(s: Seq<char>) -> int
    decreases s.len(),
{
    if s.len() == 0 || white_space(s.last()) {
        s.len() as int
    } else {
        word_start(s.drop_last())
    }
}

/// A word at the end of a text starts within it, and what stands before it is
/// white space.
proof fn word_start_is_first(s: Seq<char>)
    ensures
        0 <= word_start(s) <= s.len(),
        forall|i: int| word_start(s) <= i < s.len() ==> !white_space(#[trigger] s[i]),
        word_start(s) > 0 ==> white_space(s[word_start(s) - 1]),
    decreases s.len(),
{
    if s.len() > 0 && !white_space(s.last()) {
        word_start_is_first(s.drop_last());
        let t = s.drop_last();
        assert forall|i: int| word_start(s) <= i < s.len() implies !white_space(#[trigger] s[i]) by {
            if i < t.len() {
                assert(t[i] == s[i]);
            }
        }
    }
}

/// The runs of characters of a text that are not white space.
pub fn split_words(text: &str) -> (r: Vec<String>)
    ensures
        texts(r@) == words_of(text@),
{
    let chars = chars_of(text);
    let s = chars.as_slice();
    let n: usize = s.len();
    let mut out: Vec<String> = Vec::new();
    let mut from: usize = 0;
    let mut i: usize = 0;
    assert(s@.subrange(0, 0) =~= Seq::<char>::empty());
    assert(texts(out@) =~= words_of(Seq::<char>::empty()));
    while i < n
        invariant
            from <= i <= n == s@.len(),
            from == word_start(s@.subrange(0, i as int)),
            texts(out@) == words_of(s@.subrange(0, from as int)),
        decreases n - i,
    {
        let ghost next = s@.subrange(0, i + 1);
        let ghost now = s@.subrange(0, i as int);
        assert(next.drop_last() =~= now);
        if is_white_space(s[i]) {
            if from < i {
                let ghost before = out@;
                let word = substring(s, from, i);
                out.push(word);
                proof {
                    word_start_is_first(now);
                    assert(!white_space(now[i - 1]));
                    assert(now.last() == now[i - 1]);
                    assert(now.subrange(0, from as int) =~= s@.subrange(0, from as int));
                    assert(now.subrange(from as int, i as int) =~= word@);
                    assert(texts(out@) =~= texts(before).push(word@));
                    assert(texts(out@) =~= words_of(now));
                }
            }
            assert(texts(out@) == words_of(now));
            from = i + 1;
        }
        i = i + 1;
    }
    assert(s@.subrange(0, n as int) =~= s@);
    if from < n {
        let ghost before = out@;
        let word = substring(s, from, n);
        out.push(word);
        proof {
            word_start_is_first(s@);
            assert(!white_space(s@[n - 1]));
            assert(texts(out@) =~= texts(before).push(word@));
        }
    }
    out
}

/// Lines, each with a line feed behind it.
pub open spec fn with_line_feeds(lines: Seq<Seq<char>>) -> Seq<char>
    decreases lines.len(),
{
    if lines.len() == 0 {
        Seq::empty()
    } else {
        lines[0] + seq!['\n'] + with_line_feeds(lines.drop_first())
    }
}

/// The lines that a text was written of are read from it, whether or not the last
/// has a line feed behind it.
pub proof fn written_lines_are_read(lines: Seq<Seq<char>>, last: Seq<char>)
    requires
        forall|i: int|
            0 <= i < lines.len() ==> !(#[trigger] lines[i]).contains('\n') && (lines[i].len() > 0
                ==> lines[i].last() != '\r'),
        !last.contains('\n'),
        last.len() > 0,
    ensures
        lines_of(with_line_feeds(lines)) == lines,
        lines_of(with_line_feeds(lines) + last) == lines.push(last),
    decreases lines.len(),
{
    if lines.len() == 0 {
        assert(with_line_feeds(lines) + last =~= last);
        assert forall|j: int| 0 <= j < last.len() implies last[j] != '\n' by {
            assert(last.contains(last[j]));
        }
        index_of_char_unique(last, '\n', last.len() as int);
        assert(lines_of(last) =~= lines.push(last));
        assert(lines_of(with_line_feeds(lines)) =~= lines);
    } else {
        let first = lines[0];
        let rest = lines.drop_first();
        assert forall|i: int| 0 <= i < rest.len() implies !(#[trigger] rest[i]).contains('\n') && (
        rest[i].len() > 0 ==> rest[i].last() != '\r') by {
            assert(!lines[i + 1].contains('\n'));
        }
        written_lines_are_read(rest, last);
        let s = with_line_feeds(lines);
        let t = s + last;
        let n = first.len() as int;
        assert forall|j: int| 0 <= j < n implies s[j] != '\n' && t[j] != '\n' by {
            assert(s[j] == first[j]);
            assert(first.contains(first[j]));
        }
        assert(s[n] == '\n' && t[n] == '\n');
        index_of_char_unique(s, '\n', n);
        index_of_char_unique(t, '\n', n);
        assert(s.subrange(0, n) =~= first);
        assert(t.subrange(0, n) =~= first);
        assert(s.subrange(n + 1, s.len() as int) =~= with_line_feeds(rest));
        assert(t.subrange(n + 1, t.len() as int) =~= with_line_feeds(rest) + last);
        assert(without_cr(first) == first);
        assert(seq![first] + rest =~= lines);
        assert(seq![first] + rest.push(last) =~= lines.push(last));
    }
}

/// No line is lost or made up: there are as many as line feeds, and one more where
/// something follows the last of these.
pub proof fn lines_are_counted(s: Seq<char>)
    ensures
        lines_of(s).len() == s.filter(|c: char| c == '\n').len() + (if s.len() > 0 && s.last()
            != '\n' {
            1int
        } else {
            0
        }),
    decreases s.len(),
{
    let feed = |c: char| c == '\n';
    index_of_char_is_first(s, '\n');
    let i = index_of_char(s, '\n');
    reveal(Seq::filter);
    if s.len() == 0 {
    } else if i >= s.len() {
        no_feed_is_filtered(s);
        assert(s[s.len() - 1] != '\n');
    } else {
        let rest = s.subrange(i + 1, s.len() as int);
        lines_are_counted(rest);
        let head = s.subrange(0, i);
        no_feed_is_filtered(head);
        let first = head.push('\n');
        assert(first.drop_last() =~= head);
        assert(s =~= first + rest);
        Seq::filter_distributes_over_add(first, rest, feed);
        assert(first.filter(feed).len() == 1);
        if rest.len() > 0 {
            assert(rest.last() == s.last());
        } else {
            assert(s.last() == s[i]);
        }
    }
}

/// Nothing is filtered from a text without a line feed.
proof fn no_feed_is_filtered(s: Seq<char>)
    requires
        forall|j: int| 0 <= j < s.len() ==> s[j] != '\n',
    ensures
        s.filter(|c: char| c == '\n').len() == 0,
    decreases s.len(),
{
    reveal(Seq::filter);
    if s.len() > 0 {
        assert(s[s.len() - 1] != '\n');
        assert forall|j: int| 0 <= j < s.drop_last().len() implies s.drop_last()[j] != '\n' by {
            assert(s[j] != '\n');
        }
        no_feed_is_filtered(s.drop_last());
    }
}

/// Parts put together with a character that none of them holds are found again.
pub proof fn joined_parts_are_split(parts: Seq<Seq<char>>, c: char)
    requires
        parts.len() > 0,
        forall|i: int| 0 <= i < parts.len() ==> !(#[trigger] parts[i]).contains(c),
    ensures
        split_on(joined(parts, seq![c]), c) == parts,
    decreases parts.len(),
{
    let first = parts[0];
    let n = first.len() as int;
    assert forall|j: int| 0 <= j < n implies first[j] != c by {
        assert(first.contains(first[j]));
    }
    if parts.len() == 1 {
        index_of_char_unique(first, c, n);
        assert(split_on(first, c) =~= parts);
    } else {
        let rest = parts.drop_first();
        assert forall|i: int| 0 <= i < rest.len() implies !(#[trigger] rest[i]).contains(c) by {
            assert(!parts[i + 1].contains(c));
        }
        joined_parts_are_split(rest, c);
        joined_from_the_front(parts, seq![c]);
        let s = joined(parts, seq![c]);
        assert forall|j: int| 0 <= j < n implies s[j] != c by {
            assert(s[j] == first[j]);
        }
        assert(s[n] == c);
        index_of_char_unique(s, c, n);
        assert(s.subrange(0, n) =~= first);
        assert(s.subrange(n + 1, s.len() as int) =~= joined(rest, seq![c]));
        assert(seq![first] + rest =~= parts);
    }
}

/// Joining can start at the front as well.
proof fn joined_from_the_front(parts: Seq<Seq<char>>, sep: Seq<char>)
    requires
        parts.len() > 1,
    ensures
        joined(parts, sep) == parts[0] + sep + joined(parts.drop_first(), sep),
    decreases parts.len(),
{
    let rest = parts.drop_first();
    if parts.len() == 2 {
        assert(parts.drop_last()[0] == parts[0]);
        assert(joined(parts.drop_last(), sep) == parts[0]);
        assert(joined(rest, sep) == parts[1]);
    } else {
        joined_from_the_front(parts.drop_last(), sep);
        assert(parts.drop_last().drop_first() =~= rest.drop_last());
        assert(rest.last() == parts.last());
        assert(parts[0] + sep + joined(rest.drop_last(), sep) + sep + parts.last() =~= parts[0] + sep
            + (joined(rest.drop_last(), sep) + sep + rest.last()));
    }
}

/// A number that is written in decimal digits is read back, with a sign or without
/// one, where it fits.
pub proof fn written_numbers_are_read(n: nat)
    ensures
        n <= i32::MAX ==> parsed_i32(decimal(n)) == Some(n as i32),
        n <= i32::MAX ==> parsed_i32(seq!['-'] + decimal(n)) == Some((-(n as int)) as i32),
        n <= u32::MAX ==> parsed_u32(decimal(n)) == Some(n as u32),
        n <= u64::MAX ==> parsed_u64(decimal(n)) == Some(n as u64),
        n > u64::MAX ==> parsed_u64(decimal(n)) is None,
{
    decimal_is_read(n);
    let d = decimal(n);
    assert(is_digit(d[0]));
    let signed = seq!['-'] + d;
    assert(signed.drop_first() =~= d);
}

} // verus!
