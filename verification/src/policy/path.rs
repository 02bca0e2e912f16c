//! Path resolution by text alone: no file system is asked, so it holds for
//! remote systems too.

use crate::text::{chars_eq, chars_of, copy_range, has_prefix, split_char, split_on, starts_with, string_of, views};
use vstd::prelude::*;

verus! {

/// The segments of a path after `.` and `..` are worked off, from segment `i`
/// on, where `done` are the segments before it.
pub open spec fn resolve_segments(
    segments: Seq<Seq<char>>,
    i: int,
    done: Seq<Seq<char>>,
) -> Seq<Seq<char>>
    decreases segments.len() - i,
{
    if i < 0 || i >= segments.len() {
        done
    } else {
        let s = segments[i];
        let next = if s.len() == 0 || s == seq!['.'] {
            done
        } else if s == seq!['.', '.'] {
            if done.len() > 0 {
                done.drop_last()
            } else {
                done
            }
        } else {
            done.push(s)
        };
        resolve_segments(segments, i + 1, next)
    }
}

/// Each segment with a slash before it.
pub open spec fn slashed(segments: Seq<Seq<char>>) -> Seq<char>
    decreases segments.len(),
{
    if segments.len() == 0 {
        Seq::empty()
    } else {
        slashed(segments.drop_last()) + seq!['/'] + segments.last()
    }
}

/// The absolute path that a text names.
pub open spec fn normal_path(path: Seq<char>) -> Seq<char> {
    let segments = resolve_segments(split_on(path, '/'), 0, Seq::empty());
    if segments.len() == 0 {
        seq!['/']
    } else {
        slashed(segments)
    }
}

/// The path before `.` and `..` are worked off: `~` is the user's home, and a
/// relative path starts at `cwd`. `None` for an option, and for `~` where the
/// user is not known.
pub open spec fn expanded_path(
    arg: Seq<char>,
    cwd: Seq<char>,
    user: Option<Seq<char>>,
) -> Option<Seq<char>> {
    if arg.len() > 0 && arg[0] == '-' {
        None
    } else if has_prefix(arg, seq!['~', '/']) || arg == seq!['~'] {
        match user {
            Some(u) => Some("/home/"@ + u + arg.subrange(1, arg.len() as int)),
            None => None,
        }
    } else if arg.len() > 0 && arg[0] == '/' {
        Some(arg)
    } else {
        Some(cwd + seq!['/'] + arg)
    }
}

/// Whether an argument names a path that starts at the working directory.
pub open spec fn is_relative(arg: Seq<char>) -> bool {
    arg.len() == 0 || (arg[0] != '-' && arg[0] != '/' && !has_prefix(arg, seq!['~', '/']) && arg
        != seq!['~'])
}

/// What is not relative names the same path in every directory.
pub proof fn absolute_path_ignores_directory(
    arg: Seq<char>,
    a: Seq<char>,
    b: Seq<char>,
    user: Option<Seq<char>>,
)
    requires
        !is_relative(arg),
    ensures
        resolved_path(arg, a, user) == resolved_path(arg, b, user),
{
}

/// Whether an argument names a path that starts at the working directory.
pub fn names_relative(arg: &str) -> (r: bool)
    ensures
        r == is_relative(arg@),
{
    let a = chars_of(arg);
    let n: usize = a.len();
    if n == 0 {
        return true;
    }
    let home = a[0] == '~' && (n == 1 || a[1] == '/');
    assert(home == (has_prefix(arg@, seq!['~', '/']) || arg@ == seq!['~'])) by {
        if has_prefix(arg@, seq!['~', '/']) {
            assert(arg@.subrange(0, 2)[0] == arg@[0]);
            assert(arg@.subrange(0, 2)[1] == arg@[1]);
        }
        if home && n == 1 {
            assert(arg@ =~= seq!['~']);
        }
        if home && n > 1 {
            assert(arg@.subrange(0, 2) =~= seq!['~', '/']);
        }
    }
    a[0] != '-' && a[0] != '/' && !home
}

/// The absolute path that an argument names.
pub open spec fn resolved_path(
    arg: Seq<char>,
    cwd: Seq<char>,
    user: Option<Seq<char>>,
) -> Option<Seq<char>> {
    match expanded_path(arg, cwd, user) {
        Some(p) => Some(normal_path(p)),
        None => None,
    }
}

/// Whether `s` is one segment of a path that names neither itself nor its
/// parent.
pub open spec fn proper_segment(s: Seq<char>) -> bool {
    s.len() > 0 && s != seq!['.'] && s != seq!['.', '.'] && !s.contains('/')
}

/// The parts of a split hold no separator.
pub proof fn split_parts_are_clean(s: Seq<char>, c: char)
    ensures
        forall|i: int| 0 <= i < split_on(s, c).len() ==> !(#[trigger] split_on(s, c)[i]).contains(c),
    decreases s.len(),
{
    crate::text::index_of_char_is_first(s, c);
    let i = crate::text::index_of_char(s, c);
    if i < s.len() {
        let rest = s.subrange(i + 1, s.len() as int);
        split_parts_are_clean(rest, c);
        let head = s.subrange(0, i);
        assert forall|j: int| 0 <= j < split_on(s, c).len() implies !(#[trigger] split_on(
            s,
            c,
        )[j]).contains(c) by {
            if j == 0 {
                assert(split_on(s, c)[0] == head);
                assert forall|k: int| 0 <= k < head.len() implies head[k] != c by {
                    assert(head[k] == s[k]);
                }
            } else {
                assert(split_on(s, c)[j] == split_on(rest, c)[j - 1]);
            }
        }
    } else {
        assert(split_on(s, c) =~= seq![s]);
    }
}

/// Resolving leaves only proper segments.
pub proof fn resolved_segments_are_proper(
    segments: Seq<Seq<char>>,
    i: int,
    done: Seq<Seq<char>>,
)
    requires
        forall|k: int| 0 <= k < segments.len() ==> !(#[trigger] segments[k]).contains('/'),
        forall|k: int| 0 <= k < done.len() ==> proper_segment(#[trigger] done[k]),
    ensures
        forall|k: int|
            0 <= k < resolve_segments(segments, i, done).len() ==> proper_segment(
                #[trigger] resolve_segments(segments, i, done)[k],
            ),
    decreases segments.len() - i,
{
    if 0 <= i < segments.len() {
        let s = segments[i];
        let next = if s.len() == 0 || s == seq!['.'] {
            done
        } else if s == seq!['.', '.'] {
            if done.len() > 0 {
                done.drop_last()
            } else {
                done
            }
        } else {
            done.push(s)
        };
        resolved_segments_are_proper(segments, i + 1, next);
        assert(resolve_segments(segments, i, done) == resolve_segments(segments, i + 1, next));
    }
}

/// A resolved path is absolute: it is `/`, or proper segments with a slash
/// before each, so no `.` or `..` is left to lead out of a directory that it
/// starts with.
pub proof fn resolved_path_is_normal(arg: Seq<char>, cwd: Seq<char>, user: Option<Seq<char>>)
    ensures
        match resolved_path(arg, cwd, user) {
            Some(p) => p == seq!['/'] || exists|segments: Seq<Seq<char>>|
                segments.len() > 0 && p == #[trigger] slashed(segments) && forall|k: int|
                    0 <= k < segments.len() ==> proper_segment(#[trigger] segments[k]),
            None => true,
        },
{
    if let Some(p) = expanded_path(arg, cwd, user) {
        split_parts_are_clean(p, '/');
        let segments = resolve_segments(split_on(p, '/'), 0, Seq::empty());
        resolved_segments_are_proper(split_on(p, '/'), 0, Seq::empty());
        assert(normal_path(p) == seq!['/'] || normal_path(p) == slashed(segments));
    }
}

/// Resolve a path to absolute form, working off `.` and `..` segments.
pub fn resolve_path(arg: &str, cwd: &str, user: Option<&str>) -> (r: Option<String>)
    ensures
        match r {
            Some(p) => resolved_path(arg@, cwd@, match user {
                Some(u) => Some(u@),
                None => None,
            }) == Some(p@),
            None => resolved_path(arg@, cwd@, match user {
                Some(u) => Some(u@),
                None => None,
            }) is None,
        },
{
    let a = chars_of(arg);
    if a.len() > 0 && a[0] == '-' {
        return None;
    }
    let tilde: Vec<char> = vec!['~'];
    let tilde_slash: Vec<char> = vec!['~', '/'];
    let mut full: Vec<char> = Vec::new();
    proof {
        assert(tilde@ =~= seq!['~']);
        assert(tilde_slash@ =~= seq!['~', '/']);
    }
    if starts_with(a.as_slice(), tilde_slash.as_slice()) || chars_eq(
        a.as_slice(),
        tilde.as_slice(),
    ) {
        let u = match user {
            Some(u) => u,
            None => {
                return None;
            },
        };
        let mut home = chars_of("/home/");
        let mut name = chars_of(u);
        let mut rest = copy_range(a.as_slice(), 1, a.len());
        full.append(&mut home);
        full.append(&mut name);
        full.append(&mut rest);
        assert(full@ =~= "/home/"@ + u@ + arg@.subrange(1, arg@.len() as int));
    } else if a.len() > 0 && a[0] == '/' {
        full = a;
    } else {
        let mut base = chars_of(cwd);
        let mut rest = a;
        full.append(&mut base);
        full.push('/');
        full.append(&mut rest);
        assert(full@ =~= cwd@ + seq!['/'] + arg@);
    }
    let segments = split_char(full.as_slice(), '/');
    let ghost all = views(segments@);
    let mut done: Vec<Vec<char>> = Vec::new();
    let mut i: usize = 0;
    assert(views(done@) =~= Seq::<Seq<char>>::empty());
    while i < segments.len()
        invariant
            i <= segments@.len(),
            all == views(segments@),
            resolve_segments(all, i as int, views(done@)) == resolve_segments(
                all,
                0,
                Seq::empty(),
            ),
        decreases segments@.len() - i,
    {
        let ghost before = views(done@);
        let s = segments[i].as_slice();
        assert(all[i as int] == s@);
        if s.len() == 0 || (s.len() == 1 && s[0] == '.') {
            assert(s@.len() == 0 || s@ =~= seq!['.']);
        } else if s.len() == 2 && s[0] == '.' && s[1] == '.' {
            assert(s@ =~= seq!['.', '.']);
            if done.len() > 0 {
                done.pop();
                assert(views(done@) =~= before.drop_last());
            }
        } else {
            assert(s@ != seq!['.'] && s@ != seq!['.', '.']) by {
                assert(seq!['.'].len() == 1 && seq!['.'][0] == '.');
                assert(seq!['.', '.'].len() == 2 && seq!['.', '.'][0] == '.' && seq!['.', '.'][1]
                    == '.');
            }
            let part = copy_range(s, 0, s.len());
            assert(part@ =~= s@);
            done.push(part);
            assert(views(done@) =~= before.push(s@));
        }
        i = i + 1;
    }
    if done.len() == 0 {
        let mut root = String::new();
        root.push('/');
        assert(root@ =~= seq!['/']);
        return Some(root);
    }
    let mut out: Vec<char> = Vec::new();
    let mut j: usize = 0;
    assert(views(done@).subrange(0, 0) =~= Seq::<Seq<char>>::empty());
    while j < done.len()
        invariant
            j <= done@.len(),
            out@ == slashed(views(done@).subrange(0, j as int)),
        decreases done@.len() - j,
    {
        let ghost before = views(done@).subrange(0, j as int);
        let ghost upto = views(done@).subrange(0, j + 1);
        out.push('/');
        let mut part = copy_range(done[j].as_slice(), 0, done[j].len());
        let ghost text = part@;
        assert(text =~= done@[j as int]@);
        out.append(&mut part);
        assert(upto.drop_last() =~= before);
        assert(upto.last() == text);
        assert(out@ =~= slashed(before) + seq!['/'] + text);
        j = j + 1;
    }
    assert(views(done@).subrange(0, j as int) =~= views(done@));
    Some(string_of(out.as_slice()))
}

/// Where a path starts: a tilde at the user's home, a slash at the root, and
/// anything else at the working directory. An option is no path.
pub proof fn paths_start_where_written(
    cwd: Seq<char>,
    user: Option<Seq<char>>,
    rest: Seq<char>,
    arg: Seq<char>,
)
    ensures
        expanded_path(seq!['/'] + rest, cwd, user) == Some(seq!['/'] + rest),
        user matches Some(u) ==> expanded_path(seq!['~', '/'] + rest, cwd, user) == Some(
            "/home/"@ + u + seq!['/'] + rest,
        ) && expanded_path(seq!['~'], cwd, user) == Some("/home/"@ + u),
        user is None ==> expanded_path(seq!['~', '/'] + rest, cwd, user) is None,
        expanded_path(seq!['-'] + rest, cwd, user) is None,
        arg.len() > 0 && arg[0] != '/' && arg[0] != '-' && arg[0] != '~' ==> expanded_path(
            arg,
            cwd,
            user,
        ) == Some(cwd + seq!['/'] + arg),
        expanded_path(Seq::empty(), cwd, user) == Some(cwd + seq!['/']),
{
    let root = seq!['/'] + rest;
    let home = seq!['~', '/'] + rest;
    let option = seq!['-'] + rest;
    let none = Seq::<char>::empty();
    assert(root[0] == '/' && home[0] == '~' && home[1] == '/' && option[0] == '-');
    assert(home.subrange(0, 2) =~= seq!['~', '/']);
    assert(seq!['~'][0] == '~');
    if let Some(u) = user {
        assert("/home/"@ + u + home.subrange(1, home.len() as int) =~= "/home/"@ + u + seq!['/']
            + rest);
        assert("/home/"@ + u + seq!['~'].subrange(1, 1) =~= "/home/"@ + u);
    }
    assert(root != seq!['~']) by {
        assert(root[0] != seq!['~'][0]);
    }
    if has_prefix(root, seq!['~', '/']) {
        assert(root.subrange(0, 2)[0] == '/');
        assert(seq!['~', '/'][0] == '~');
    }
    if has_prefix(arg, seq!['~', '/']) {
        assert(arg.subrange(0, 2)[0] == arg[0]);
        assert(seq!['~', '/'][0] == '~');
    }
    assert(none != seq!['~']) by {
        assert(none.len() != seq!['~'].len());
    }
    assert(cwd + seq!['/'] + none =~= cwd + seq!['/']);
}

/// Working off segments goes from the front to the back.
proof fn resolved_in_two(a: Seq<Seq<char>>, b: Seq<Seq<char>>, i: int, done: Seq<Seq<char>>)
    requires
        0 <= i <= a.len(),
    ensures
        resolve_segments(a + b, i, done) == resolve_segments(b, 0, resolve_segments(a, i, done)),
    decreases a.len() - i,
{
    let all = a + b;
    if i < a.len() {
        let s = a[i];
        assert(all[i] == s);
        let next = if s.len() == 0 || s == seq!['.'] {
            done
        } else if s == seq!['.', '.'] {
            if done.len() > 0 {
                done.drop_last()
            } else {
                done
            }
        } else {
            done.push(s)
        };
        resolved_in_two(a, b, i + 1, next);
    } else {
        resolved_behind(a, b, 0, done);
    }
}

/// What stands in front does not matter to the segments behind.
proof fn resolved_behind(a: Seq<Seq<char>>, b: Seq<Seq<char>>, j: int, done: Seq<Seq<char>>)
    requires
        0 <= j <= b.len(),
    ensures
        resolve_segments(a + b, a.len() + j, done) == resolve_segments(b, j, done),
    decreases b.len() - j,
{
    let all = a + b;
    if j < b.len() {
        let s = b[j];
        assert(all[a.len() + j] == s);
        let next = if s.len() == 0 || s == seq!['.'] {
            done
        } else if s == seq!['.', '.'] {
            if done.len() > 0 {
                done.drop_last()
            } else {
                done
            }
        } else {
            done.push(s)
        };
        resolved_behind(a, b, j + 1, next);
    }
}

/// Dots in a path: a dot stays where it is, two dots take back the segment before
/// them, and above the root there is nothing.
pub proof fn dots_are_worked_off(front: Seq<Seq<char>>, name: Seq<char>, rest: Seq<Seq<char>>)
    requires
        name.len() > 0,
        name != seq!['.'],
        name != seq!['.', '.'],
    ensures
        ({
            let none = Seq::<Seq<char>>::empty();
            let plain = resolve_segments(front + rest, 0, none);
            &&& resolve_segments(front + seq![name, seq!['.', '.']] + rest, 0, none) == plain
            &&& resolve_segments(front + seq![seq!['.']] + rest, 0, none) == plain
            &&& resolve_segments(front + seq![Seq::<char>::empty()] + rest, 0, none) == plain
            &&& resolve_segments(seq![seq!['.', '.']] + rest, 0, none) == resolve_segments(
                rest,
                0,
                none,
            )
            &&& resolve_segments(front + seq![name], 0, none) == resolve_segments(
                front,
                0,
                none,
            ).push(name)
        }),
{
    let none = Seq::<Seq<char>>::empty();
    let up = seq!['.', '.'];
    let here = seq!['.'];
    let empty = Seq::<char>::empty();
    let d = resolve_segments(front, 0, none);
    reveal_with_fuel(resolve_segments, 3);
    assert(up.len() == 2 && here.len() == 1 && up != here && empty.len() == 0);
    resolved_in_two(front, rest, 0, none);
    resolved_in_two(front + seq![name, up], rest, 0, none);
    resolved_in_two(front, seq![name, up], 0, none);
    assert(seq![name, up][0] == name && seq![name, up][1] == up);
    assert(d.push(name).drop_last() =~= d);
    assert(resolve_segments(seq![name, up], 0, d) == d);
    resolved_in_two(front + seq![here], rest, 0, none);
    resolved_in_two(front, seq![here], 0, none);
    assert(seq![here][0] == here);
    resolved_in_two(front + seq![empty], rest, 0, none);
    resolved_in_two(front, seq![empty], 0, none);
    assert(seq![empty][0] == empty);
    resolved_in_two(seq![up], rest, 0, none);
    assert(seq![up][0] == up);
    resolved_in_two(front, seq![name], 0, none);
    assert(seq![name][0] == name);
}

} // verus!
