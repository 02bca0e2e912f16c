//! Escaping in tmux control mode.

use crate::text::{chars_of, string_of};
use vstd::prelude::*;

verus! {

/// Whether `b` is an octal digit.
pub open spec fn is_octal(b: u8) -> bool {
    48 <= b <= 55
}

/// How many octal digits, at most `max`, stand at the start of `s`.
pub open spec fn octal_run(s: Seq<u8>, max: nat) -> nat
    decreases max,
{
    if max == 0 || s.len() == 0 || !is_octal(s[0]) {
        0
    } else {
        1 + octal_run(s.drop_first(), (max - 1) as nat)
    }
}

/// The value of octal digits.
pub open spec fn octal_value(s: Seq<u8>) -> int
    decreases s.len(),
{
    if s.len() == 0 {
        0
    } else {
        8 * octal_value(s.drop_last()) + (s.last() - 48)
    }
}

/// `s` with its escapes read. A backslash before one to three octal digits
/// stands for the byte of that value (for nothing, where there is no such
/// byte); a double backslash stands for one; any other backslash for itself.
pub open spec fn unescaped(s: Seq<u8>) -> Seq<u8>
    decreases s.len(),
{
    if s.len() == 0 {
        s
    } else if s[0] != 92 {
        seq![s[0]] + unescaped(s.drop_first())
    } else {
        let tail = s.drop_first();
        let k = octal_run(tail, 3);
        if 0 < k <= tail.len() {
            let value = octal_value(tail.subrange(0, k as int));
            (if value <= 255 {
                seq![value as u8]
            } else {
                Seq::empty()
            }) + unescaped(tail.subrange(k as int, tail.len() as int))
        } else if tail.len() > 0 && tail[0] == 92 {
            seq![92u8] + unescaped(tail.drop_first())
        } else {
            seq![92u8] + unescaped(tail)
        }
    }
}

/// Unescape the data of a tmux `%output` notification.
///
/// Tmux writes non-printable bytes as octal escapes (`\033`, `\134`). Printable
/// characters pass through unchanged.
pub fn unescape_tmux_output(escaped: &str) -> (r: Vec<u8>)
    ensures
        r@ == unescaped(vstd::utf8::encode_utf8(escaped@)),
{
    let s = escaped.as_bytes();
    let mut out: Vec<u8> = Vec::new();
    let mut i: usize = 0;
    let n: usize = s.len();
    assert(s@.subrange(0, s@.len() as int) =~= s@);
    assert(out@ + unescaped(s@) =~= unescaped(s@));
    while i < n
        invariant
            i <= n == s@.len(),
            out@ + unescaped(s@.subrange(i as int, n as int)) == unescaped(s@),
        decreases n - i,
    {
        let ghost rest = s@.subrange(i as int, n as int);
        let ghost before = out@;
        assert(rest.drop_first() =~= s@.subrange(i + 1, n as int));
        if s[i] != 92 {
            out.push(s[i]);
            i = i + 1;
        } else {
            let ghost tail = rest.drop_first();
            let (k, value) = read_octal(s, i + 1);
            if k > 0 {
                if value <= 255 {
                    out.push(value as u8);
                }
                assert(tail.subrange(k as int, tail.len() as int) =~= s@.subrange(
                    i + 1 + k,
                    n as int,
                ));
                i = i + 1 + k;
            } else if i + 1 < n && s[i + 1] == 92 {
                assert(tail.drop_first() =~= s@.subrange(i + 2, n as int));
                out.push(92);
                i = i + 2;
            } else {
                out.push(92);
                i = i + 1;
            }
        }
        assert(out@ + unescaped(s@.subrange(i as int, n as int)) =~= before + unescaped(rest));
    }
    assert(out@ + unescaped(s@.subrange(i as int, n as int)) =~= out@);
    out
}

/// The number of octal digits at `from`, at most three, and their value.
fn read_octal(s: &[u8], from: usize) -> (r: (usize, u16))
    requires
        from <= s@.len(),
    ensures
        ({
            let tail = s@.subrange(from as int, s@.len() as int);
            &&& r.0 == octal_run(tail, 3)
            &&& from + r.0 <= s@.len()
            &&& r.1 == octal_value(tail.subrange(0, r.0 as int))
        }),
{
    let ghost tail = s@.subrange(from as int, s@.len() as int);
    let n: usize = s.len();
    let mut k: usize = 0;
    let mut value: u16 = 0;
    assert(tail.subrange(0, 0) =~= Seq::<u8>::empty());
    assert(tail.subrange(0, tail.len() as int) =~= tail);
    while k < 3 && from + k < n && 48 <= s[from + k] && s[from + k] <= 55
        invariant
            k <= 3,
            from + k <= n == s@.len(),
            tail == s@.subrange(from as int, s@.len() as int),
            octal_run(tail, 3) == k + octal_run(
                tail.subrange(k as int, tail.len() as int),
                (3 - k) as nat,
            ),
            value == octal_value(tail.subrange(0, k as int)),
            k == 0 ==> value == 0,
            k == 1 ==> value <= 7,
            k == 2 ==> value <= 63,
            k == 3 ==> value <= 511,
        decreases 3 - k,
    {
        let ghost here = tail.subrange(k as int, tail.len() as int);
        assert(here[0] == s@[from + k]);
        assert(here.drop_first() =~= tail.subrange(k + 1, tail.len() as int));
        assert(tail.subrange(0, k + 1).drop_last() =~= tail.subrange(0, k as int));
        assert(tail.subrange(0, k + 1).last() == s@[from + k]);
        value = value * 8 + (s[from + k] as u16 - 48);
        k = k + 1;
    }
    (k, value)
}

/// `s` inside single quotes, each quote in it written as `'\''`.
pub open spec fn quote_body(s: Seq<char>) -> Seq<char>
    decreases s.len(),
{
    if s.len() == 0 {
        s
    } else if s[0] == '\'' {
        seq!['\'', '\\', '\'', '\''] + quote_body(s.drop_first())
    } else {
        seq![s[0]] + quote_body(s.drop_first())
    }
}

/// `s` as one shell word.
pub open spec fn shell_quoted(s: Seq<char>) -> Seq<char> {
    seq!['\''] + quote_body(s) + seq!['\'']
}

/// Quote a string as one shell word: in single quotes, each quote in it written
/// as `'\''`.
pub fn shell_escape(s: &str) -> (r: String)
    ensures
        r@ == shell_quoted(s@),
{
    let chars = chars_of(s);
    let mut out: Vec<char> = Vec::new();
    out.push('\'');
    let mut i: usize = 0;
    assert(chars@.subrange(0, chars@.len() as int) =~= chars@);
    while i < chars.len()
        invariant
            i <= chars@.len(),
            chars@ == s@,
            out@ + quote_body(chars@.subrange(i as int, chars@.len() as int)) == seq!['\'']
                + quote_body(s@),
        decreases chars@.len() - i,
    {
        let ghost rest = chars@.subrange(i as int, chars@.len() as int);
        let ghost before = out@;
        assert(rest.drop_first() =~= chars@.subrange(i + 1, chars@.len() as int));
        if chars[i] == '\'' {
            out.push('\'');
            out.push('\\');
            out.push('\'');
            out.push('\'');
        } else {
            out.push(chars[i]);
        }
        i = i + 1;
        assert(out@ + quote_body(chars@.subrange(i as int, chars@.len() as int)) =~= before
            + quote_body(rest));
    }
    assert(out@ + quote_body(chars@.subrange(i as int, chars@.len() as int)) =~= out@);
    out.push('\'');
    string_of(out.as_slice())
}

/// The value that a shell reads from a word of single-quoted parts and escaped
/// characters.
pub open spec fn shell_reads(s: Seq<char>, quoted: bool) -> Seq<char>
    decreases s.len(),
{
    if s.len() == 0 {
        s
    } else if s[0] == '\'' {
        shell_reads(s.drop_first(), !quoted)
    } else if s[0] == '\\' && !quoted {
        if s.len() == 1 {
            Seq::empty()
        } else {
            seq![s[1]] + shell_reads(s.subrange(2, s.len() as int), quoted)
        }
    } else {
        seq![s[0]] + shell_reads(s.drop_first(), quoted)
    }
}

/// A shell reads back from inside the quotes what was quoted.
proof fn body_reads_back(s: Seq<char>)
    ensures
        shell_reads(quote_body(s) + seq!['\''], true) == s,
    decreases s.len(),
{
    let t = quote_body(s) + seq!['\''];
    if s.len() == 0 {
        assert(t =~= seq!['\'']);
        assert(t.drop_first() =~= Seq::<char>::empty());
        assert(shell_reads(t.drop_first(), false) =~= s);
    } else {
        let rest = s.drop_first();
        let u = quote_body(rest) + seq!['\''];
        body_reads_back(rest);
        if s[0] == '\'' {
            let a = t.drop_first();
            assert(t[0] == '\'');
            assert(a[0] == '\\' && a[1] == '\'');
            let b = a.subrange(2, a.len() as int);
            assert(b[0] == '\'');
            assert(b.drop_first() =~= u);
            assert(shell_reads(b, false) == shell_reads(u, true));
            assert(shell_reads(a, false) == seq!['\''] + shell_reads(b, false));
            assert(seq!['\''] + rest =~= s);
        } else {
            assert(t[0] == s[0]);
            assert(t.drop_first() =~= u);
            assert(seq![s[0]] + rest =~= s);
        }
    }
}

/// A shell reads back from a quoted string exactly that string.
pub proof fn shell_escape_round_trip(s: Seq<char>)
    ensures
        shell_reads(shell_quoted(s), false) == s,
{
    body_reads_back(s);
    assert(shell_quoted(s).drop_first() =~= quote_body(s) + seq!['\'']);
}

/// The octal escape of a byte.
pub open spec fn octal_escape(b: u8) -> Seq<u8> {
    seq![92u8, (48 + b / 64) as u8, (48 + b / 8 % 8) as u8, (48 + b % 8) as u8]
}

/// Every byte comes back from its octal escape, whatever follows.
pub proof fn octal_escape_round_trip(b: u8, rest: Seq<u8>)
    ensures
        unescaped(octal_escape(b) + rest) == seq![b] + unescaped(rest),
{
    let s = octal_escape(b) + rest;
    let tail = s.drop_first();
    let x = (48 + b / 64) as u8;
    let y = (48 + b / 8 % 8) as u8;
    let z = (48 + b % 8) as u8;
    assert(tail[0] == x && tail[1] == y && tail[2] == z);
    assert(is_octal(x) && is_octal(y) && is_octal(z));
    let t1 = tail.drop_first();
    let t2 = t1.drop_first();
    assert(t1[0] == y && t2[0] == z);
    assert(octal_run(t2, 1) == 1) by {
        reveal_with_fuel(octal_run, 2);
    }
    assert(octal_run(t1, 2) == 2);
    assert(octal_run(tail, 3) == 3);
    let d = tail.subrange(0, 3);
    assert(d.drop_last() =~= tail.subrange(0, 2));
    assert(d.drop_last().drop_last() =~= tail.subrange(0, 1));
    assert(d.drop_last().drop_last().drop_last() =~= Seq::<u8>::empty());
    assert(octal_value(Seq::<u8>::empty()) == 0);
    assert(tail.subrange(0, 1).last() == x);
    assert(octal_value(d.drop_last().drop_last()) == x - 48);
    assert(octal_value(d.drop_last()) == 8 * (x - 48) + (y - 48));
    assert(octal_value(d) == 8 * (8 * (x - 48) + (y - 48)) + (z - 48));
    assert(64 * (b / 64) + 8 * (b / 8 % 8) + b % 8 == b) by (nonlinear_arith);
    assert(octal_value(d) == b);
    assert(tail.subrange(3, tail.len() as int) =~= rest);
}

/// Text without a backslash passes through unchanged.
pub proof fn plain_passes_through(s: Seq<u8>)
    requires
        !s.contains(92),
    ensures
        unescaped(s) == s,
    decreases s.len(),
{
    if s.len() > 0 {
        assert(s[0] != 92);
        assert forall|i: int| 0 <= i < s.drop_first().len() implies s.drop_first()[i] != 92 by {
            assert(s[i + 1] != 92);
        }
        plain_passes_through(s.drop_first());
        assert(seq![s[0]] + s.drop_first() =~= s);
    }
}

/// Two backslashes stand for one, and one in front of anything else but a digit
/// stands for itself.
pub proof fn backslashes_are_read(c: u8, rest: Seq<u8>)
    requires
        !(48 <= c <= 55),
        c != 92,
    ensures
        unescaped(seq![92u8, 92u8] + rest) == seq![92u8] + unescaped(rest),
        unescaped(seq![92u8, c] + rest) == seq![92u8, c] + unescaped(rest),
        unescaped(seq![92u8]) == seq![92u8],
{
    reveal_with_fuel(unescaped, 3);
    let two = seq![92u8, 92u8] + rest;
    assert(two[0] == 92 && two.drop_first()[0] == 92);
    assert(two.drop_first().drop_first() =~= rest);
    let other = seq![92u8, c] + rest;
    assert(other[0] == 92 && other.drop_first()[0] == c);
    assert(other.drop_first().drop_first() =~= rest);
    assert(seq![92u8] + (seq![c] + unescaped(rest)) =~= seq![92u8, c] + unescaped(rest));
    let one = seq![92u8];
    assert(one.drop_first() =~= Seq::<u8>::empty());
    assert(one + Seq::<u8>::empty() =~= one);
}

} // verus!
