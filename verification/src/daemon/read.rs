//! Windows on the output of a command: the next lines, the first, the last, and
//! those that match a pattern.

use crate::daemon::rpc::{RpcError, INVALID_PARAMS};
use crate::pattern::{check_pattern, is_match, regex_error, regex_matches};
use crate::text::{clone_texts, lines_of, opt_text, split_lines, texts};
use vstd::prelude::*;
use vstd::string::StringExecFns;

verus! {

/// Which lines of an output are asked for.
#[derive(Debug, Clone, PartialEq, Eq)]
pub struct ReadParams {
    /// That many lines from the cursor on.
    pub next: Option<usize>,
    /// The first lines.
    pub head: Option<usize>,
    /// The last lines.
    pub tail: Option<usize>,
    /// Of these, those that match a regular expression.
    pub search: Option<String>,
    /// Lines of context before each match.
    pub before: usize,
    /// Lines of context after each match.
    pub after: usize,
}

/// What is asked for, mathematically.
pub ghost struct ParamsModel {
    pub next: Option<usize>,
    pub head: Option<usize>,
    pub tail: Option<usize>,
    pub search: Option<Seq<char>>,
    pub before: int,
    pub after: int,
}

impl View for ReadParams {
    type V = ParamsModel;

    open spec fn view(&self) -> ParamsModel {
        ParamsModel {
            next: self.next,
            head: self.head,
            tail: self.tail,
            search: opt_text(self.search),
            before: self.before as int,
            after: self.after as int,
        }
    }
}

/// The text for windows that exclude one another.
pub const ONE_WINDOW: &'static str =
    "next, head, and tail are mutually exclusive — use only one";

/// Number of values that are given.
pub open spec fn given(next: Option<usize>, head: Option<usize>, tail: Option<usize>) -> int {
    (if next is Some {
        1int
    } else {
        0
    }) + (if head is Some {
        1int
    } else {
        0
    }) + (if tail is Some {
        1int
    } else {
        0
    })
}

/// The text for a pattern that is no regular expression.
pub open spec fn bad_pattern(reason: Seq<char>) -> Seq<char> {
    "invalid search regex: "@ + reason
}

/// Check what a request asks for, given what is wrong with its pattern. At most one
/// of the windows may be given.
pub fn check_params(
    next: Option<usize>,
    head: Option<usize>,
    tail: Option<usize>,
    pattern_error: Option<String>,
) -> (r: Result<(), RpcError>)
    ensures
        if given(next, head, tail) > 1 {
            r matches Err(e) && e.is(INVALID_PARAMS, ONE_WINDOW@)
        } else {
            match pattern_error {
                Some(reason) => r matches Err(e) && e.is(INVALID_PARAMS, bad_pattern(reason@)),
                None => r is Ok,
            }
        },
{
    if (next.is_some() && (head.is_some() || tail.is_some())) || (head.is_some() && tail.is_some()) {
        return Err(RpcError::invalid_params(ONE_WINDOW.to_owned()));
    }
    match pattern_error {
        Some(reason) => {
            let mut message = "invalid search regex: ".to_owned();
            message.append(reason.as_str());
            Err(RpcError::invalid_params(message))
        },
        None => Ok(()),
    }
}

impl ReadParams {
    /// What a request asks for. At most one of the windows may be given, and the
    /// pattern must be a regular expression.
    pub fn from_values(
        next: Option<usize>,
        head: Option<usize>,
        tail: Option<usize>,
        search: Option<String>,
        before: usize,
        after: usize,
    ) -> (r: Result<Self, RpcError>)
        ensures
            if given(next, head, tail) > 1 {
                r matches Err(e) && e.is(INVALID_PARAMS, ONE_WINDOW@)
            } else if search matches Some(p) && regex_error(p@) is Some {
                r matches Err(e) && e.is(INVALID_PARAMS, bad_pattern(regex_error(search->0@)->0))
            } else {
                r matches Ok(p) && p@ == (ParamsModel {
                    next,
                    head,
                    tail,
                    search: opt_text(search),
                    before: before as int,
                    after: after as int,
                })
            },
    {
        let pattern_error = match &search {
            Some(p) => check_pattern(p.as_str()),
            None => None,
        };
        if let Err(e) = check_params(next, head, tail, pattern_error) {
            return Err(e);
        }
        Ok(Self { next, head, tail, search, before, after })
    }
}

/// What was read.
#[derive(Debug, Clone, PartialEq, Eq)]
pub struct ReadResult {
    pub lines: Vec<String>,
    pub total_lines: usize,
    /// Number of lines before the window.
    pub skipped: usize,
    /// Number of lines that match, where a pattern was given.
    pub matched: Option<usize>,
}

/// A window: where it starts, and where it ends.
pub open spec fn window(p: ParamsModel, total: int, cursor: int) -> (int, int) {
    match p.next {
        Some(n) => (
            cursor,
            if cursor + n < total {
                cursor + n
            } else {
                total
            },
        ),
        None => match p.head {
            Some(n) => (
                0,
                if n < total {
                    n as int
                } else {
                    total
                },
            ),
            None => match p.tail {
                Some(n) => (
                    if n < total {
                        total - n
                    } else {
                        0
                    },
                    total,
                ),
                None => (0, total),
            },
        },
    }
}

/// Where the cursor stands after a read: only `next` moves it.
pub open spec fn cursor_after(p: ParamsModel, total: int, cursor: int) -> int {
    if p.next is Some {
        window(p, total, cursor).1
    } else {
        cursor
    }
}

/// The lines of a window.
pub open spec fn windowed(lines: Seq<Seq<char>>, p: ParamsModel, cursor: int) -> Seq<Seq<char>> {
    let (from, to) = window(p, lines.len() as int, cursor);
    if 0 <= from <= to <= lines.len() {
        lines.subrange(from, to)
    } else {
        Seq::empty()
    }
}

/// Which lines match a pattern.
pub open spec fn hits(lines: Seq<Seq<char>>, pattern: Seq<char>) -> Seq<bool> {
    Seq::new(lines.len(), |i: int| regex_matches(pattern, lines[i]))
}

/// Whether a line is a match or in the context of one.
pub open spec fn is_shown(hits: Seq<bool>, before: int, after: int, i: int) -> bool {
    exists|m: int| 0 <= m < hits.len() && #[trigger] hits[m] && m - before <= i <= m + after
}

/// Those of the first `n` lines that are a match or in the context of one.
pub open spec fn shown(
    lines: Seq<Seq<char>>,
    hits: Seq<bool>,
    before: int,
    after: int,
    n: int,
) -> Seq<Seq<char>>
    decreases n,
{
    if n <= 0 {
        Seq::empty()
    } else {
        let front = shown(lines, hits, before, after, n - 1);
        if is_shown(hits, before, after, n - 1) {
            front.push(lines[n - 1])
        } else {
            front
        }
    }
}

/// Number of matches.
pub open spec fn hit_count(hits: Seq<bool>) -> int
    decreases hits.len(),
{
    if hits.len() == 0 {
        0
    } else {
        hit_count(hits.drop_last()) + (if hits.last() {
            1int
        } else {
            0
        })
    }
}

/// What is read of the lines of an output.
pub open spec fn selected(lines: Seq<Seq<char>>, p: ParamsModel, cursor: int) -> Seq<Seq<char>> {
    let w = windowed(lines, p, cursor);
    match p.search {
        Some(pattern) => shown(w, hits(w, pattern), p.before, p.after, w.len() as int),
        None => w,
    }
}

/// Number of matches in what is read.
pub open spec fn matches_in(lines: Seq<Seq<char>>, p: ParamsModel, cursor: int) -> Option<int> {
    match p.search {
        Some(pattern) => Some(hit_count(hits(windowed(lines, p, cursor), pattern))),
        None => None,
    }
}

/// The lines `from..to` of a list.
fn copy_lines(lines: &Vec<String>, from: usize, to: usize) -> (r: Vec<String>)
    requires
        from <= to <= lines@.len(),
    ensures
        texts(r@) == texts(lines@).subrange(from as int, to as int),
{
    let part = vstd::slice::slice_subrange(lines.as_slice(), from, to);
    let out = clone_texts(part);
    assert(texts(part@) =~= texts(lines@).subrange(from as int, to as int));
    out
}

/// Which lines match a pattern.
fn match_lines(lines: &Vec<String>, pattern: &str) -> (r: Vec<bool>)
    ensures
        r@ == hits(texts(lines@), pattern@),
{
    let n: usize = lines.len();
    let mut out: Vec<bool> = Vec::new();
    let mut i: usize = 0;
    while i < n
        invariant
            i <= n == lines@.len(),
            out@.len() == i,
            forall|k: int| 0 <= k < i ==> #[trigger] out@[k] == regex_matches(pattern@, lines@[k]@),
        decreases n - i,
    {
        out.push(is_match(pattern, lines[i].as_str()));
        i = i + 1;
    }
    assert(out@ =~= hits(texts(lines@), pattern@));
    out
}

/// Number of matches.
pub fn count_hits(hits: &Vec<bool>) -> (r: usize)
    ensures
        r == hit_count(hits@),
{
    let n: usize = hits.len();
    let mut count: usize = 0;
    let mut i: usize = 0;
    assert(hits@.subrange(0, 0) =~= Seq::<bool>::empty());
    while i < n
        invariant
            count <= i <= n == hits@.len(),
            count == hit_count(hits@.subrange(0, i as int)),
        decreases n - i,
    {
        assert(hits@.subrange(0, i + 1).drop_last() =~= hits@.subrange(0, i as int));
        if hits[i] {
            count = count + 1;
        }
        i = i + 1;
    }
    assert(hits@.subrange(0, n as int) =~= hits@);
    count
}

/// Whether a line is a match or in the context of one.
fn in_context(hits: &Vec<bool>, before: usize, after: usize, i: usize) -> (r: bool)
    requires
        i < hits@.len(),
    ensures
        r == is_shown(hits@, before as int, after as int, i as int),
{
    let n: usize = hits.len();
    let mut m: usize = if i > after {
        i - after
    } else {
        0
    };
    while m < n && (m <= i || m - i <= before)
        invariant
            i < n == hits@.len(),
            m <= n,
            i <= m + after,
            forall|k: int| 0 <= k < m && #[trigger] hits@[k] ==> !(k - before <= i <= k + after),
        decreases n - m,
    {
        if hits[m] {
            assert(hits@[m as int]);
            return true;
        }
        m = m + 1;
    }
    false
}

/// The lines that are a match or in the context of one.
pub fn show_lines(lines: &Vec<String>, hits: &Vec<bool>, before: usize, after: usize) -> (r: Vec<String>)
    requires
        hits@.len() == lines@.len(),
    ensures
        texts(r@) == shown(
            texts(lines@),
            hits@,
            before as int,
            after as int,
            lines@.len() as int,
        ),
{
    let ghost all = texts(lines@);
    let n: usize = lines.len();
    let mut out: Vec<String> = Vec::new();
    let mut i: usize = 0;
    assert(texts(out@) =~= Seq::<Seq<char>>::empty());
    while i < n
        invariant
            i <= n == lines@.len() == hits@.len(),
            all == texts(lines@),
            texts(out@) == shown(all, hits@, before as int, after as int, i as int),
        decreases n - i,
    {
        let ghost front = texts(out@);
        if in_context(hits, before, after, i) {
            out.push(lines[i].as_str().to_owned());
            assert(texts(out@) =~= front.push(all[i as int]));
        }
        i = i + 1;
    }
    out
}

/// Read an output. The cursor moves behind the window if the next lines were
/// asked for.
pub fn apply_read_params(output: &str, cursor: &mut usize, params: &ReadParams) -> (r: ReadResult)
    ensures
        ({
            let lines = lines_of(output@);
            let at = *old(cursor) as int;
            &&& texts(r.lines@) == selected(lines, params@, at)
            &&& r.total_lines == lines.len()
            &&& r.skipped == window(params@, lines.len() as int, at).0
            &&& match r.matched {
                Some(n) => matches_in(lines, params@, at) == Some(n as int),
                None => matches_in(lines, params@, at) is None,
            }
            &&& *final(cursor) == cursor_after(params@, lines.len() as int, at)
        }),
{
    let all = split_lines(output);
    let total: usize = all.len();
    let at: usize = *cursor;
    let (from, to): (usize, usize) = match params.next {
        Some(n) => (
            at,
            if at < total && n < total - at {
                at + n
            } else {
                total
            },
        ),
        None => match params.head {
            Some(n) => (
                0,
                if n < total {
                    n
                } else {
                    total
                },
            ),
            None => match params.tail {
                Some(n) => (
                    if n < total {
                        total - n
                    } else {
                        0
                    },
                    total,
                ),
                None => (0, total),
            },
        },
    };
    if params.next.is_some() {
        *cursor = to;
    }
    let lines = if from <= to {
        copy_lines(&all, from, to)
    } else {
        Vec::new()
    };
    assert(texts(lines@) =~= windowed(lines_of(output@), params@, at as int));
    match &params.search {
        Some(pattern) => {
            let matching = match_lines(&lines, pattern.as_str());
            let found = show_lines(&lines, &matching, params.before, params.after);
            ReadResult {
                lines: found,
                total_lines: total,
                skipped: from,
                matched: Some(count_hits(&matching)),
            }
        },
        None => ReadResult { lines, total_lines: total, skipped: from, matched: None },
    }
}

/// Number of lines that a read of a command in execution waits for: those from
/// the cursor on, or from the first on.
pub open spec fn waited_for(lines: Seq<Seq<char>>, p: ParamsModel, cursor: int) -> Option<
    (Seq<Seq<char>>, usize),
> {
    match p.next {
        Some(n) => Some(
            (
                if 0 <= cursor <= lines.len() {
                    lines.subrange(cursor, lines.len() as int)
                } else {
                    Seq::empty()
                },
                n,
            ),
        ),
        None => match p.head {
            Some(n) => Some((lines, n)),
            None => None,
        },
    }
}

/// Whether what a read waits for is there: as many lines as were asked for or,
/// with a pattern, as many matches.
pub open spec fn enough(lines: Seq<Seq<char>>, p: ParamsModel, cursor: int) -> bool {
    match waited_for(lines, p, cursor) {
        Some((w, n)) => match p.search {
            Some(pattern) => hit_count(hits(w, pattern)) >= n,
            None => w.len() >= n,
        },
        None => false,
    }
}

/// Whether what a read waits for is there.
pub fn has_enough(output: &str, cursor: usize, params: &ReadParams) -> (r: bool)
    ensures
        r == enough(lines_of(output@), params@, cursor as int),
{
    let all = split_lines(output);
    let total: usize = all.len();
    let (from, n): (usize, usize) = match params.next {
        Some(n) => (
            if cursor <= total {
                cursor
            } else {
                total
            },
            n,
        ),
        None => match params.head {
            Some(n) => (0, n),
            None => {
                return false;
            },
        },
    };
    let ghost lines = lines_of(output@);
    match &params.search {
        Some(pattern) => {
            let rest = copy_lines(&all, from, total);
            assert(texts(rest@) =~= (waited_for(lines, params@, cursor as int)->0).0);
            let matching = match_lines(&rest, pattern.as_str());
            count_hits(&matching) >= n
        },
        None => {
            assert((waited_for(lines, params@, cursor as int)->0).0.len() == total - from);
            total - from >= n
        },
    }
}

/// Reading the next lines twice is reading as many at once.
pub proof fn next_reads_concatenate(lines: Seq<Seq<char>>, cursor: int, m: usize, n: usize)
    requires
        0 <= cursor <= lines.len(),
        m + n <= usize::MAX,
    ensures
        ({
            let ask = |k: usize|
                ParamsModel {
                    next: Some(k),
                    head: None,
                    tail: None,
                    search: None,
                    before: 0,
                    after: 0,
                };
            let between = cursor_after(ask(m), lines.len() as int, cursor);
            let all = (m + n) as usize;
            &&& selected(lines, ask(all), cursor) == selected(lines, ask(m), cursor) + selected(
                lines,
                ask(n),
                between,
            )
            &&& cursor_after(ask(all), lines.len() as int, cursor) == cursor_after(
                ask(n),
                lines.len() as int,
                between,
            )
        }),
{
    let ask = |k: usize|
        ParamsModel { next: Some(k), head: None, tail: None, search: None, before: 0, after: 0 };
    let between = cursor_after(ask(m), lines.len() as int, cursor);
    let all = (m + n) as usize;
    assert(selected(lines, ask(all), cursor) =~= selected(lines, ask(m), cursor) + selected(
        lines,
        ask(n),
        between,
    ));
}

/// Once all is read, the next lines are none, and the cursor stays.
pub proof fn next_past_the_end_is_empty(lines: Seq<Seq<char>>, p: ParamsModel)
    requires
        p.next is Some,
    ensures
        selected(lines, p, lines.len() as int).len() == 0,
        cursor_after(p, lines.len() as int, lines.len() as int) == lines.len(),
{
    let w = windowed(lines, p, lines.len() as int);
    assert(w.len() == 0);
    if let Some(pattern) = p.search {
        assert(shown(w, hits(w, pattern), p.before, p.after, 0).len() == 0);
    }
}

/// Without context, what a search shows is what matches, in order.
pub proof fn search_without_context_filters(lines: Seq<Seq<char>>, pattern: Seq<char>, n: int)
    requires
        0 <= n <= lines.len(),
    ensures
        shown(lines, hits(lines, pattern), 0, 0, n) == lines.subrange(0, n).filter(
            |l: Seq<char>| regex_matches(pattern, l),
        ),
        shown(lines, hits(lines, pattern), 0, 0, n).len() == hit_count(
            hits(lines, pattern).subrange(0, n),
        ),
    decreases n,
{
    reveal(Seq::filter);
    let test = |l: Seq<char>| regex_matches(pattern, l);
    let all = hits(lines, pattern);
    if n > 0 {
        search_without_context_filters(lines, pattern, n - 1);
        let part = lines.subrange(0, n);
        assert(part.drop_last() =~= lines.subrange(0, n - 1));
        assert(part.last() == lines[n - 1]);
        assert(all.subrange(0, n).drop_last() =~= all.subrange(0, n - 1));
        assert(is_shown(all, 0, 0, n - 1) == all[n - 1]);
    } else {
        assert(lines.subrange(0, 0).filter(test) =~= Seq::<Seq<char>>::empty());
    }
}

/// What is read lies in the output: every line shown is one of its lines.
pub proof fn reads_show_lines_of_the_output(lines: Seq<Seq<char>>, p: ParamsModel, cursor: int)
    ensures
        forall|i: int|
            0 <= i < selected(lines, p, cursor).len() ==> lines.contains(
                #[trigger] selected(lines, p, cursor)[i],
            ),
        selected(lines, p, cursor).len() <= lines.len(),
{
    let w = windowed(lines, p, cursor);
    let from = window(p, lines.len() as int, cursor).0;
    assert forall|i: int| 0 <= i < w.len() implies lines.contains(#[trigger] w[i]) by {
        assert(lines[from + i] == w[i]);
    }
    if let Some(pattern) = p.search {
        shown_lines_are_lines(w, hits(w, pattern), p.before, p.after, w.len() as int);
        let s = selected(lines, p, cursor);
        assert forall|i: int| 0 <= i < s.len() implies lines.contains(#[trigger] s[i]) by {
            let k = choose|k: int| 0 <= k < w.len() && s[i] == w[k];
            assert(lines.contains(w[k]));
        }
    }
}

/// What is shown are lines of the window.
proof fn shown_lines_are_lines(
    w: Seq<Seq<char>>,
    hits: Seq<bool>,
    before: int,
    after: int,
    n: int,
)
    requires
        0 <= n <= w.len(),
    ensures
        shown(w, hits, before, after, n).len() <= n,
        forall|i: int|
            0 <= i < shown(w, hits, before, after, n).len() ==> exists|k: int|
                0 <= k < w.len() && #[trigger] shown(w, hits, before, after, n)[i] == w[k],
    decreases n,
{
    if n > 0 {
        shown_lines_are_lines(w, hits, before, after, n - 1);
        let front = shown(w, hits, before, after, n - 1);
        let s = shown(w, hits, before, after, n);
        assert forall|i: int| 0 <= i < s.len() implies exists|k: int|
            0 <= k < w.len() && #[trigger] s[i] == w[k] by {
            if i < front.len() {
                assert(s[i] == front[i]);
                let k = choose|k: int| 0 <= k < w.len() && front[i] == w[k];
                assert(s[i] == w[k]);
            } else {
                assert(s[i] == w[n - 1]);
            }
        }
    }
}

/// The window that was asked for, of the lines themselves: the last `n`, the
/// first `n`, the `n` from the cursor on, or all. Where the output has fewer,
/// those that it has.
pub proof fn window_is_what_was_asked(lines: Seq<Seq<char>>, p: ParamsModel, cursor: int, n: usize)
    requires
        p.search is None,
        0 <= cursor,
    ensures
        p.next is None && p.head is None && p.tail == Some(n) ==> {
            &&& n <= lines.len() ==> selected(lines, p, cursor) == lines.subrange(
                lines.len() - n,
                lines.len() as int,
            )
            &&& n > lines.len() ==> selected(lines, p, cursor) == lines
        },
        p.next is None && p.head == Some(n) ==> {
            &&& n <= lines.len() ==> selected(lines, p, cursor) == lines.subrange(0, n as int)
            &&& n > lines.len() ==> selected(lines, p, cursor) == lines
        },
        p.next == Some(n) && cursor <= lines.len() ==> {
            &&& cursor + n <= lines.len() ==> selected(lines, p, cursor) == lines.subrange(
                cursor,
                cursor + n,
            )
            &&& cursor + n > lines.len() ==> selected(lines, p, cursor) == lines.subrange(
                cursor,
                lines.len() as int,
            )
        },
        p.next == Some(n) && cursor > lines.len() ==> selected(lines, p, cursor).len() == 0,
        p.next is None && p.head is None && p.tail is None ==> selected(lines, p, cursor) == lines,
{
    let s = selected(lines, p, cursor);
    if n <= lines.len() {
        assert(p.next is None && p.head is None && p.tail == Some(n) ==> s =~= lines.subrange(
            lines.len() - n,
            lines.len() as int,
        ));
        assert(p.next is None && p.head == Some(n) ==> s =~= lines.subrange(0, n as int));
    } else {
        assert(p.next is None && p.head is None && p.tail == Some(n) ==> s =~= lines);
        assert(p.next is None && p.head == Some(n) ==> s =~= lines);
    }
    assert(p.next is None && p.head is None && p.tail is None ==> s =~= lines);
    if p.next == Some(n) && cursor <= lines.len() {
        if cursor + n <= lines.len() {
            assert(s =~= lines.subrange(cursor, cursor + n));
        } else {
            assert(s =~= lines.subrange(cursor, lines.len() as int));
        }
    }
}

/// A search without context shows, of what the same read shows without it, the
/// lines that match, in order, and tells how many they are. A read without a
/// search tells of no matches.
pub proof fn search_filters_the_window(
    lines: Seq<Seq<char>>,
    p: ParamsModel,
    cursor: int,
    pattern: Seq<char>,
)
    requires
        p.search is None,
        p.before == 0,
        p.after == 0,
    ensures
        ({
            let plain = selected(lines, p, cursor);
            let searching = ParamsModel { search: Some(pattern), ..p };
            let found = plain.filter(|l: Seq<char>| regex_matches(pattern, l));
            &&& selected(lines, searching, cursor) == found
            &&& matches_in(lines, searching, cursor) == Some(found.len() as int)
            &&& matches_in(lines, p, cursor) is None
        }),
{
    let searching = ParamsModel { search: Some(pattern), ..p };
    let w = windowed(lines, searching, cursor);
    search_without_context_filters(w, pattern, w.len() as int);
    assert(w.subrange(0, w.len() as int) =~= w);
    assert(hits(w, pattern).subrange(0, w.len() as int) =~= hits(w, pattern));
}

/// A search with context shows, of what the same read shows without it, the
/// lines at the places `at`, in order: those that stand no more than `before`
/// lines before a match or `after` lines after one.
pub proof fn search_shows_context(
    lines: Seq<Seq<char>>,
    p: ParamsModel,
    cursor: int,
    pattern: Seq<char>,
) -> (at: Seq<int>)
    requires
        p.search is None,
        0 <= p.before,
        0 <= p.after,
    ensures
        ({
            let plain = selected(lines, p, cursor);
            let found = selected(lines, (ParamsModel { search: Some(pattern), ..p }), cursor);
            &&& at.len() == found.len()
            &&& forall|k: int|
                0 <= k < at.len() ==> 0 <= #[trigger] at[k] < plain.len() && found[k] == plain[at[k]]
            &&& forall|j: int, k: int| 0 <= j < k < at.len() ==> #[trigger] at[j] < #[trigger] at[k]
            &&& forall|i: int|
                0 <= i < plain.len() ==> (at.contains(i) <==> exists|m: int|
                    0 <= m < plain.len() && regex_matches(pattern, #[trigger] plain[m]) && m
                        - p.before <= i <= m + p.after)
        }),
{
    let w = selected(lines, p, cursor);
    let h = hits(w, pattern);
    let at = shown_places(w, h, p.before, p.after, w.len() as int);
    assert forall|i: int| 0 <= i < w.len() implies (at.contains(i) <==> exists|m: int|
        0 <= m < w.len() && regex_matches(pattern, #[trigger] w[m]) && m - p.before <= i <= m
            + p.after) by {
        if is_shown(h, p.before, p.after, i) {
            let m = choose|m: int|
                0 <= m < h.len() && #[trigger] h[m] && m - p.before <= i <= m + p.after;
            assert(regex_matches(pattern, w[m]));
        }
        if exists|m: int|
            0 <= m < w.len() && regex_matches(pattern, #[trigger] w[m]) && m - p.before <= i <= m
                + p.after {
            let m = choose|m: int|
                0 <= m < w.len() && regex_matches(pattern, #[trigger] w[m]) && m - p.before <= i
                    <= m + p.after;
            assert(h[m]);
        }
    }
    at
}

/// The places of what is shown.
proof fn shown_places(w: Seq<Seq<char>>, h: Seq<bool>, before: int, after: int, n: int) -> (at: Seq<
    int,
>)
    requires
        0 <= n <= w.len(),
    ensures
        at.len() == shown(w, h, before, after, n).len(),
        forall|k: int|
            0 <= k < at.len() ==> 0 <= #[trigger] at[k] < n && shown(w, h, before, after, n)[k]
                == w[at[k]],
        forall|j: int, k: int| 0 <= j < k < at.len() ==> #[trigger] at[j] < #[trigger] at[k],
        forall|i: int| 0 <= i < n ==> (at.contains(i) <==> is_shown(h, before, after, i)),
    decreases n,
{
    if n == 0 {
        Seq::empty()
    } else {
        let front = shown_places(w, h, before, after, n - 1);
        if is_shown(h, before, after, n - 1) {
            let at = front.push(n - 1);
            assert forall|i: int| 0 <= i < n implies (at.contains(i) <==> is_shown(
                h,
                before,
                after,
                i,
            )) by {
                assert(at[front.len() as int] == n - 1);
                if i < n - 1 {
                    if front.contains(i) {
                        let k = choose|k: int| 0 <= k < front.len() && front[k] == i;
                        assert(at[k] == i);
                    }
                    if at.contains(i) {
                        let k = choose|k: int| 0 <= k < at.len() && at[k] == i;
                        assert(front[k] == i);
                    }
                }
            }
            at
        } else {
            assert forall|i: int| 0 <= i < n implies (front.contains(i) <==> is_shown(
                h,
                before,
                after,
                i,
            )) by {
                if front.contains(i) {
                    let k = choose|k: int| 0 <= k < front.len() && front[k] == i;
                    assert(front[k] < n - 1);
                }
            }
            front
        }
    }
}

/// A read of the next lines leaves the cursor behind them, at the end of the
/// output at most; any other read leaves it where it is. What is skipped are the
/// lines before the window: none for the first lines or all of them, those
/// before the last `n`, those before the cursor.
pub proof fn cursor_and_skipped_lines(p: ParamsModel, total: int, cursor: int, n: usize)
    requires
        0 <= cursor <= total,
    ensures
        p.next == Some(n) ==> cursor_after(p, total, cursor) == (if cursor + n <= total {
            cursor + n
        } else {
            total
        }) && window(p, total, cursor).0 == cursor,
        p.next is None ==> cursor_after(p, total, cursor) == cursor,
        p.next is None && p.head is None && p.tail == Some(n) && n <= total ==> window(
            p,
            total,
            cursor,
        ).0 == total - n,
        p.next is None && (p.head is Some || p.tail is None || (p.tail == Some(n) && n >= total))
            ==> window(p, total, cursor).0 == 0,
{
}

/// A read of the next or the first `n` lines has enough exactly once `n` of them
/// are there, and with a search once `n` of those that are there match. Other
/// reads never have: they wait for the end.
pub proof fn enough_is_as_many_as_asked(
    lines: Seq<Seq<char>>,
    p: ParamsModel,
    cursor: int,
    n: usize,
)
    requires
        0 <= cursor <= lines.len(),
    ensures
        p.search is None && p.next == Some(n) ==> (enough(lines, p, cursor) <==> lines.len()
            >= cursor + n),
        p.search is None && p.next is None && p.head == Some(n) ==> (enough(lines, p, cursor)
            <==> lines.len() >= n),
        p.next is None && p.head is None ==> !enough(lines, p, cursor),
        p.search is Some && p.next == Some(n) ==> (enough(lines, p, cursor) <==> lines.subrange(
            cursor,
            lines.len() as int,
        ).filter(|l: Seq<char>| regex_matches(p.search->0, l)).len() >= n),
        p.search is Some && p.next is None && p.head == Some(n) ==> (enough(lines, p, cursor)
            <==> lines.filter(|l: Seq<char>| regex_matches(p.search->0, l)).len() >= n),
{
    if let Some(pattern) = p.search {
        let rest = lines.subrange(cursor, lines.len() as int);
        search_without_context_filters(rest, pattern, rest.len() as int);
        search_without_context_filters(lines, pattern, lines.len() as int);
        assert(rest.subrange(0, rest.len() as int) =~= rest);
        assert(lines.subrange(0, lines.len() as int) =~= lines);
        assert(hits(rest, pattern).subrange(0, rest.len() as int) =~= hits(rest, pattern));
        assert(hits(lines, pattern).subrange(0, lines.len() as int) =~= hits(lines, pattern));
    }
}

} // verus!
