//! Parser for tmux layout strings.
//!
//! Tmux writes a window's layout as a compact string:
//!
//!   `4a06,204x51,0,0{102x51,0,0,3,101x51,103,0,4}`
//!
//! The grammar is:
//!   layout    = checksum "," cell
//!   cell      = WxH "," X "," Y "," pane_number      (leaf)
//!             | WxH "," X "," Y "{" cell_list "}"    (horizontal split)
//!             | WxH "," X "," Y "[" cell_list "]"    (vertical split)
//!   cell_list = cell ("," cell)*

use vstd::prelude::*;

verus! {

/// A leaf pane of a layout.
#[derive(Debug, Clone, Copy, PartialEq, Eq, Structural)]
pub struct LayoutPane {
    pub pane_number: u32,
    pub width: usize,
    pub height: usize,
    pub x: usize,
    pub y: usize,
}

/// Whether `b` is a decimal digit.
pub open spec fn is_digit(b: u8) -> bool {
    48 <= b <= 57
}

/// The end of the run of digits at `p`.
pub open spec fn digits_end(b: Seq<u8>, p: int) -> int
    decreases b.len() - p,
{
    if 0 <= p < b.len() && is_digit(b[p]) {
        digits_end(b, p + 1)
    } else {
        p
    }
}

/// The value of a run of digits.
pub open spec fn digits_value(b: Seq<u8>) -> int
    decreases b.len(),
{
    if b.len() == 0 {
        0
    } else {
        10 * digits_value(b.drop_last()) + (b.last() - 48)
    }
}

/// Where the digits at `p` end and the number they write, where there is one
/// that fits.
pub open spec fn number_at(b: Seq<u8>, p: int) -> Option<(int, usize)> {
    let e = digits_end(b, p);
    let value = digits_value(b.subrange(p, e));
    if e > p && value <= usize::MAX {
        Some((e, value as usize))
    } else {
        None
    }
}

/// Whether `c` stands at `p`.
pub open spec fn stands(b: Seq<u8>, p: int, c: u8) -> bool {
    0 <= p < b.len() && b[p] == c
}

/// A number after the character `c` at `p`, and where it ends.
pub open spec fn number_after(b: Seq<u8>, p: int, c: u8) -> Option<(int, usize)> {
    if stands(b, p, c) {
        number_at(b, p + 1)
    } else {
        None
    }
}

/// The `WxH,X,Y` at `p`, where it is there: its end, and the four numbers.
pub open spec fn geometry_at(b: Seq<u8>, p: int) -> Option<(int, (usize, usize, usize, usize))> {
    match number_at(b, p) {
        Some((p1, w)) => match number_after(b, p1, 120) {
            Some((p2, h)) => match number_after(b, p2, 44) {
                Some((p3, x)) => match number_after(b, p3, 44) {
                    Some((p4, y)) => Some((p4, (w, h, x, y))),
                    None => None,
                },
                None => None,
            },
            None => None,
        },
        None => None,
    }
}

/// The end and the leaves of the cell at `p`; none where no well-formed cell
/// stands there.
pub open spec fn cell_at(b: Seq<u8>, p: int) -> Option<(int, Seq<LayoutPane>)>
    decreases b.len() - p,
{
    match geometry_at(b, p) {
        Some((q, g)) => if !(0 <= p <= q < b.len()) {
            None
        } else if b[q] == 123 || b[q] == 91 {
            let close: u8 = if b[q] == 123 {
                125
            } else {
                93
            };
            match cell_at(b, q + 1) {
                Some((f, first)) => if !(p < f <= b.len()) {
                    None
                } else {
                    match more_cells(b, f) {
                        Some((e, rest)) => if stands(b, e, close) {
                            Some((e + 1, first + rest))
                        } else {
                            None
                        },
                        None => None,
                    }
                },
                None => None,
            }
        } else {
            match number_after(b, q, 44) {
                Some((e, n)) => Some(
                    (
                        e,
                        seq![
                            LayoutPane {
                                pane_number: n as u32,
                                width: g.0,
                                height: g.1,
                                x: g.2,
                                y: g.3,
                            },
                        ],
                    ),
                ),
                None => None,
            }
        },
        None => None,
    }
}

/// The end and the leaves of the further cells at `p`, each after a comma; none
/// where a comma is followed by no well-formed cell.
pub open spec fn more_cells(b: Seq<u8>, p: int) -> Option<(int, Seq<LayoutPane>)>
    decreases b.len() - p,
{
    if stands(b, p, 44) {
        match cell_at(b, p + 1) {
            Some((c, cell)) => if !(p < c <= b.len()) {
                None
            } else {
                match more_cells(b, c) {
                    Some((e, rest)) => Some((e, cell + rest)),
                    None => None,
                }
            },
            None => None,
        }
    } else {
        Some((p, Seq::empty()))
    }
}

/// The place after the checksum: after the first comma.
pub open spec fn first_comma(b: Seq<u8>, p: int) -> int
    decreases b.len() - p,
{
    if p < 0 || p >= b.len() || b[p] == 44 {
        p
    } else {
        first_comma(b, p + 1)
    }
}

/// The leaves of a layout string; empty unless what follows the checksum is one
/// well-formed cell, to the end of the text.
pub open spec fn layout_panes(b: Seq<u8>) -> Seq<LayoutPane> {
    let comma = first_comma(b, 0);
    match cell_at(b, comma + 1) {
        Some((e, panes)) => if e == b.len() {
            panes
        } else {
            Seq::empty()
        },
        None => Seq::empty(),
    }
}

/// A number ends where its digits do, within the text.
proof fn digits_end_bounds(b: Seq<u8>, p: int)
    requires
        0 <= p <= b.len(),
    ensures
        p <= digits_end(b, p) <= b.len(),
    decreases b.len() - p,
{
    if p < b.len() && is_digit(b[p]) {
        digits_end_bounds(b, p + 1);
    }
}

/// A geometry ends behind its start, within the text.
proof fn geometry_bounds(b: Seq<u8>, p: int)
    requires
        0 <= p <= b.len(),
    ensures
        match geometry_at(b, p) {
            Some((q, _)) => p < q <= b.len(),
            None => true,
        },
{
    digits_end_bounds(b, p);
    match number_at(b, p) {
        Some((p1, _)) => {
            number_after_bounds(b, p1, 120);
            match number_after(b, p1, 120) {
                Some((p2, _)) => {
                    number_after_bounds(b, p2, 44);
                    match number_after(b, p2, 44) {
                        Some((p3, _)) => number_after_bounds(b, p3, 44),
                        None => {},
                    }
                },
                None => {},
            }
        },
        None => {},
    }
}

/// A number after a character ends behind it, within the text.
proof fn number_after_bounds(b: Seq<u8>, p: int, c: u8)
    ensures
        match number_after(b, p, c) {
            Some((e, _)) => p < e <= b.len(),
            None => true,
        },
{
    if stands(b, p, c) {
        digits_end_bounds(b, p + 1);
    }
}

/// A cell ends behind its start, within the text.
proof fn cell_bounds(b: Seq<u8>, p: int)
    requires
        0 <= p <= b.len(),
    ensures
        match cell_at(b, p) {
            Some((e, _)) => p < e <= b.len(),
            None => true,
        },
    decreases b.len() - p, 1int,
{
    geometry_bounds(b, p);
    match geometry_at(b, p) {
        Some((q, _)) => {
            number_after_bounds(b, q, 44);
            if q < b.len() && (b[q] == 123 || b[q] == 91) {
                cell_bounds(b, q + 1);
                match cell_at(b, q + 1) {
                    Some((f, _)) => more_bounds(b, f),
                    None => {},
                }
            }
        },
        None => {},
    }
}

/// Further cells end at or behind their start, within the text.
proof fn more_bounds(b: Seq<u8>, p: int)
    requires
        0 <= p <= b.len(),
    ensures
        match more_cells(b, p) {
            Some((e, _)) => p <= e <= b.len(),
            None => true,
        },
    decreases b.len() - p, 0int,
{
    if stands(b, p, 44) {
        cell_bounds(b, p + 1);
        match cell_at(b, p + 1) {
            Some((c, _)) => more_bounds(b, c),
            None => {},
        }
    }
}

/// One more digit never makes the value smaller.
proof fn digits_value_grows(b: Seq<u8>)
    requires
        b.len() > 0,
        forall|i: int| 0 <= i < b.len() ==> is_digit(#[trigger] b[i]),
    ensures
        0 <= digits_value(b.drop_last()) <= digits_value(b),
    decreases b.len(),
{
    assert(is_digit(b[b.len() - 1]));
    if b.len() > 1 {
        assert forall|i: int| 0 <= i < b.drop_last().len() implies is_digit(
            #[trigger] b.drop_last()[i],
        ) by {
            assert(is_digit(b[i]));
        }
        digits_value_grows(b.drop_last());
    }
}

/// What a reader has read, in the terms of the text's places.
spec fn read_of<T>(r: Option<(usize, T)>) -> Option<(int, T)> {
    match r {
        Some((e, v)) => Some((e as int, v)),
        None => None,
    }
}

/// The number at `pos`, where there is one that fits, and where its digits end.
fn parse_number(bytes: &[u8], pos: usize) -> (r: Option<(usize, usize)>)
    requires
        pos <= bytes@.len(),
    ensures
        read_of(r) == number_at(bytes@, pos as int),
        r is Some ==> pos < r->Some_0.0 <= bytes@.len(),
{
    let mut end: usize = pos;
    let mut value: usize = 0;
    let mut fits: bool = true;
    assert(bytes@.subrange(pos as int, pos as int) =~= Seq::<u8>::empty());
    while end < bytes.len() && 48 <= bytes[end] && bytes[end] <= 57
        invariant
            pos <= end <= bytes@.len(),
            digits_end(bytes@, pos as int) == digits_end(bytes@, end as int),
            forall|i: int| pos <= i < end ==> is_digit(#[trigger] bytes@[i]),
            fits ==> value == digits_value(bytes@.subrange(pos as int, end as int)),
            !fits ==> digits_value(bytes@.subrange(pos as int, end as int)) > usize::MAX,
        decreases bytes@.len() - end,
    {
        let ghost run = bytes@.subrange(pos as int, end + 1);
        assert(run.drop_last() =~= bytes@.subrange(pos as int, end as int));
        proof {
            digits_value_grows(run);
        }
        if fits {
            let d: usize = (bytes[end] - 48) as usize;
            match value.checked_mul(10) {
                Some(t) => match t.checked_add(d) {
                    Some(v) => {
                        value = v;
                    },
                    None => {
                        fits = false;
                    },
                },
                None => {
                    fits = false;
                },
            }
        }
        end = end + 1;
    }
    if end > pos && fits {
        Some((end, value))
    } else {
        None
    }
}

/// A number after the character `c` at `pos`, and where it ends.
fn expect_number(bytes: &[u8], pos: usize, c: u8) -> (r: Option<(usize, usize)>)
    requires
        pos <= bytes@.len(),
    ensures
        read_of(r) == number_after(bytes@, pos as int, c),
        r is Some ==> pos < r->Some_0.0 <= bytes@.len(),
{
    if pos < bytes.len() && bytes[pos] == c {
        parse_number(bytes, pos + 1)
    } else {
        None
    }
}

/// The end of the `WxH,X,Y` at `pos`, and the four numbers.
fn parse_geometry(bytes: &[u8], pos: usize) -> (r: Option<(usize, (usize, usize, usize, usize))>)
    requires
        pos <= bytes@.len(),
    ensures
        read_of(r) == geometry_at(bytes@, pos as int),
        r is Some ==> pos < r->Some_0.0 <= bytes@.len(),
{
    let (p1, width) = match parse_number(bytes, pos) {
        Some(n) => n,
        None => {
            return None;
        },
    };
    let (p2, height) = match expect_number(bytes, p1, 120) {
        Some(n) => n,
        None => {
            return None;
        },
    };
    let (p3, x) = match expect_number(bytes, p2, 44) {
        Some(n) => n,
        None => {
            return None;
        },
    };
    match expect_number(bytes, p3, 44) {
        Some((p4, y)) => Some((p4, (width, height, x, y))),
        None => None,
    }
}

/// Read the cell at `pos`, appending its leaves. Returns where it ended; `None`
/// where it is malformed, and what was appended then is of no use.
fn parse_cell(bytes: &[u8], pos: usize, result: &mut Vec<LayoutPane>) -> (r: Option<usize>)
    requires
        pos <= bytes@.len(),
    ensures
        match cell_at(bytes@, pos as int) {
            Some((e, panes)) => r == Some(e as usize) && pos < e <= bytes@.len()
                && final(result)@ == old(result)@ + panes,
            None => r is None,
        },
    decreases bytes@.len() - pos,
{
    let ghost before = result@;
    proof {
        cell_bounds(bytes@, pos as int);
    }
    let (q, (width, height, x, y)) = match parse_geometry(bytes, pos) {
        Some(g) => g,
        None => {
            return None;
        },
    };
    if q >= bytes.len() {
        return None;
    }
    if bytes[q] == 123 || bytes[q] == 91 {
        let close: u8 = if bytes[q] == 123 {
            125
        } else {
            93
        };
        let first: usize = match parse_cell(bytes, q + 1, result) {
            Some(f) => f,
            None => {
                return None;
            },
        };
        let ghost head = cell_at(bytes@, q + 1)->Some_0.1;
        let mut at: usize = first;
        let ghost mut rest = Seq::<LayoutPane>::empty();
        assert(result@ =~= before + head + rest);
        proof {
            more_bounds(bytes@, first as int);
            if more_cells(bytes@, first as int) is Some {
                let m = more_cells(bytes@, first as int)->0;
                assert(rest + m.1 =~= m.1);
            }
        }
        while at < bytes.len() && bytes[at] == 44
            invariant
                q < first <= at <= bytes@.len(),
                pos < q < bytes@.len(),
                cell_at(bytes@, q + 1) == Some((first as int, head)),
                geometry_at(bytes@, pos as int) == Some((q as int, (width, height, x, y))),
                bytes@[q as int] == 123 || bytes@[q as int] == 91,
                result@ == before + head + rest,
                more_cells(bytes@, first as int) == (match more_cells(bytes@, at as int) {
                    Some((e, tail)) => Some((e, rest + tail)),
                    None => None,
                }),
            decreases bytes@.len() - at,
        {
            let ghost old_at = at as int;
            let ghost old_rest = rest;
            proof {
                cell_bounds(bytes@, old_at + 1);
            }
            at = match parse_cell(bytes, at + 1, result) {
                Some(e) => e,
                None => {
                    return None;
                },
            };
            proof {
                let c = cell_at(bytes@, old_at + 1)->Some_0.1;
                rest = old_rest + c;
                assert(result@ =~= before + head + rest);
                match more_cells(bytes@, at as int) {
                    Some((_, tail)) => assert(old_rest + (c + tail) =~= rest + tail),
                    None => {},
                }
            }
        }
        assert(rest + Seq::<LayoutPane>::empty() =~= rest);
        assert(before + head + rest =~= before + (head + rest));
        if at < bytes.len() && bytes[at] == close {
            Some(at + 1)
        } else {
            None
        }
    } else {
        match expect_number(bytes, q, 44) {
            Some((e, n)) => {
                let pane_number = #[verifier::truncate]
                (n as u32);
                result.push(LayoutPane { pane_number, width, height, x, y });
                assert(result@ =~= before + cell_at(bytes@, pos as int)->Some_0.1);
                Some(e)
            },
            None => None,
        }
    }
}

/// The leaf panes of a tmux layout string; empty where it is malformed.
pub fn parse_layout(layout: &str) -> (r: Vec<LayoutPane>)
    ensures
        r@ == layout_panes(vstd::utf8::encode_utf8(layout@)),
{
    let bytes = layout.as_bytes();
    let mut comma: usize = 0;
    while comma < bytes.len() && bytes[comma] != 44
        invariant
            comma <= bytes@.len(),
            first_comma(bytes@, 0) == first_comma(bytes@, comma as int),
        decreases bytes@.len() - comma,
    {
        comma = comma + 1;
    }
    if comma >= bytes.len() {
        return Vec::new();
    }
    let mut result: Vec<LayoutPane> = Vec::new();
    match parse_cell(bytes, comma + 1, &mut result) {
        Some(end) => {
            if end == bytes.len() {
                assert(result@ =~= layout_panes(bytes@));
                return result;
            }
            Vec::new()
        },
        None => Vec::new(),
    }
}

/// A window's layout: a pane, or cells side by side or one above the other.
pub ghost enum LayoutTree {
    Leaf(LayoutPane),
    Split {
        width: usize,
        height: usize,
        x: usize,
        y: usize,
        side_by_side: bool,
        first: Box<LayoutTree>,
        rest: Seq<LayoutTree>,
    },
}

/// The panes of a layout, in order.
pub open spec fn leaves(t: LayoutTree) -> Seq<LayoutPane>
    decreases t, 0nat,
{
    match t {
        LayoutTree::Leaf(pane) => seq![pane],
        LayoutTree::Split { first, rest, .. } => leaves(*first) + leaves_from(rest, 0),
    }
}

/// The panes of the cells from `i` on, in order.
pub open spec fn leaves_from(cells: Seq<LayoutTree>, i: nat) -> Seq<LayoutPane>
    decreases cells, cells.len() - i,
{
    if i < cells.len() {
        leaves(cells[i as int]) + leaves_from(cells, i + 1)
    } else {
        Seq::empty()
    }
}

/// A number in decimal digits.
pub open spec fn written(n: nat) -> Seq<u8>
    decreases n,
{
    if n < 10 {
        seq![(48 + n) as u8]
    } else {
        written(n / 10).push((48 + n % 10) as u8)
    }
}

/// Size and position, as tmux writes them.
pub open spec fn geometry_text(w: usize, h: usize, x: usize, y: usize) -> Seq<u8> {
    written(w as nat) + seq![120u8] + written(h as nat) + seq![44u8] + written(x as nat) + seq![44u8]
        + written(y as nat)
}

/// A cell, as tmux writes it.
pub open spec fn cell_text(t: LayoutTree) -> Seq<u8>
    decreases t, 0nat,
{
    match t {
        LayoutTree::Leaf(p) => geometry_text(p.width, p.height, p.x, p.y) + seq![44u8] + written(
            p.pane_number as nat,
        ),
        LayoutTree::Split { width, height, x, y, side_by_side, first, rest } => geometry_text(
            width,
            height,
            x,
            y,
        ) + seq![
            if side_by_side {
                123u8
            } else {
                91u8
            },
        ] + cell_text(*first) + cells_text(rest, 0) + seq![
            if side_by_side {
                125u8
            } else {
                93u8
            },
        ],
    }
}

/// The cells from `i` on, each after a comma.
pub open spec fn cells_text(cells: Seq<LayoutTree>, i: nat) -> Seq<u8>
    decreases cells, cells.len() - i,
{
    if i < cells.len() {
        seq![44u8] + cell_text(cells[i as int]) + cells_text(cells, i + 1)
    } else {
        Seq::empty()
    }
}

/// Whether a text stands at `p`.
pub open spec fn text_at(b: Seq<u8>, p: int, t: Seq<u8>) -> bool {
    0 <= p && p + t.len() <= b.len() && forall|i: int|
        0 <= i < t.len() ==> #[trigger] b[p + i] == t[i]
}

/// Whether no digit stands at `p`.
pub open spec fn no_digit_at(b: Seq<u8>, p: int) -> bool {
    p >= b.len() || !is_digit(b[p])
}

/// Where a text made of two stands, each of the two does.
proof fn parts_stand(b: Seq<u8>, p: int, s: Seq<u8>, t: Seq<u8>)
    requires
        text_at(b, p, s + t),
    ensures
        text_at(b, p, s),
        text_at(b, p + s.len(), t),
{
    assert forall|i: int| 0 <= i < s.len() implies #[trigger] b[p + i] == s[i] by {
        assert((s + t)[i] == s[i]);
    }
    assert forall|i: int| 0 <= i < t.len() implies #[trigger] b[p + s.len() + i] == t[i] by {
        assert((s + t)[s.len() + i] == t[i]);
        assert(b[p + (s.len() + i)] == (s + t)[s.len() + i]);
    }
}

/// What is written of a number are digits, and they are its value.
proof fn written_is_read(n: nat)
    ensures
        written(n).len() > 0,
        forall|i: int| 0 <= i < written(n).len() ==> is_digit(#[trigger] written(n)[i]),
        digits_value(written(n)) == n,
    decreases n,
{
    reveal_with_fuel(digits_value, 2);
    if n >= 10 {
        written_is_read(n / 10);
        assert(written(n).drop_last() =~= written(n / 10));
    } else {
        assert(written(n).drop_last() =~= Seq::<u8>::empty());
    }
}

/// A run of digits ends where no digit follows.
proof fn digits_end_at(b: Seq<u8>, p: int, e: int)
    requires
        0 <= p <= e <= b.len(),
        forall|i: int| p <= i < e ==> is_digit(#[trigger] b[i]),
        no_digit_at(b, e),
    ensures
        digits_end(b, p) == e,
    decreases e - p,
{
    if p < e {
        digits_end_at(b, p + 1, e);
    }
}

/// A number that is written is read.
proof fn number_is_read(b: Seq<u8>, p: int, n: usize)
    requires
        text_at(b, p, written(n as nat)),
        no_digit_at(b, p + written(n as nat).len()),
    ensures
        number_at(b, p) == Some((p + written(n as nat).len(), n)),
{
    let t = written(n as nat);
    written_is_read(n as nat);
    assert forall|i: int| p <= i < p + t.len() implies is_digit(#[trigger] b[i]) by {
        assert(b[p + (i - p)] == t[i - p]);
    }
    digits_end_at(b, p, p + t.len());
    assert(b.subrange(p, p + t.len()) =~= t) by {
        assert forall|i: int| 0 <= i < t.len() implies b.subrange(p, p + t.len())[i] == t[i] by {
            assert(b[p + i] == t[i]);
        }
    }
}

/// Size and position that are written are read.
proof fn geometry_is_read(b: Seq<u8>, p: int, w: usize, h: usize, x: usize, y: usize)
    requires
        text_at(b, p, geometry_text(w, h, x, y)),
        no_digit_at(b, p + geometry_text(w, h, x, y).len()),
    ensures
        geometry_at(b, p) == Some((p + geometry_text(w, h, x, y).len(), (w, h, x, y))),
{
    let (tw, th, tx, ty) = (
        written(w as nat),
        written(h as nat),
        written(x as nat),
        written(y as nat),
    );
    let a6 = tw + seq![120u8] + th + seq![44u8] + tx + seq![44u8];
    let a5 = tw + seq![120u8] + th + seq![44u8] + tx;
    let a4 = tw + seq![120u8] + th + seq![44u8];
    let a3 = tw + seq![120u8] + th;
    let a2 = tw + seq![120u8];
    parts_stand(b, p, a6, ty);
    parts_stand(b, p, a5, seq![44u8]);
    parts_stand(b, p, a4, tx);
    parts_stand(b, p, a3, seq![44u8]);
    parts_stand(b, p, a2, th);
    parts_stand(b, p, tw, seq![120u8]);
    let p1 = p + tw.len();
    let p2 = p + a3.len();
    let p3 = p + a5.len();
    assert(b[p1 + 0] == 120u8);
    assert(b[p2 + 0] == 44u8);
    assert(b[p3 + 0] == 44u8);
    number_is_read(b, p, w);
    number_is_read(b, p1 + 1, h);
    number_is_read(b, p2 + 1, x);
    number_is_read(b, p3 + 1, y);
}

/// A cell that is written is read: its panes, and where it ends.
proof fn cell_is_read(b: Seq<u8>, p: int, t: LayoutTree)
    requires
        text_at(b, p, cell_text(t)),
        no_digit_at(b, p + cell_text(t).len()),
    ensures
        cell_at(b, p) == Some((p + cell_text(t).len(), leaves(t))),
        cell_text(t).len() > 0,
    decreases t, 0nat,
{
    match t {
        LayoutTree::Leaf(pane) => {
            let g = geometry_text(pane.width, pane.height, pane.x, pane.y);
            let n = written(pane.pane_number as nat);
            parts_stand(b, p, g + seq![44u8], n);
            parts_stand(b, p, g, seq![44u8]);
            let q = p + g.len();
            assert(b[q + 0] == 44u8);
            geometry_is_read(b, p, pane.width, pane.height, pane.x, pane.y);
            number_is_read(b, q + 1, pane.pane_number as usize);
            assert(cell_at(b, p)->Some_0.1 =~= leaves(t));
        },
        LayoutTree::Split { width, height, x, y, side_by_side, first, rest } => {
            let g = geometry_text(width, height, x, y);
            let open: u8 = if side_by_side {
                123
            } else {
                91
            };
            let close: u8 = if side_by_side {
                125
            } else {
                93
            };
            let c = cell_text(*first);
            let r = cells_text(rest, 0);
            parts_stand(b, p, g + seq![open] + c + r, seq![close]);
            parts_stand(b, p, g + seq![open] + c, r);
            parts_stand(b, p, g + seq![open], c);
            parts_stand(b, p, g, seq![open]);
            let q = p + g.len();
            let f = q + 1 + c.len();
            let e = f + r.len();
            assert(b[q + 0] == open);
            assert(b[e + 0] == close);
            geometry_is_read(b, p, width, height, x, y);
            if rest.len() > 0 {
                assert(r[0] == 44u8);
                assert(b[f + 0] == 44u8);
            }
            cell_is_read(b, q + 1, *first);
            cells_are_read(b, f, rest, 0);
        },
    }
}

/// Cells that are written are read.
proof fn cells_are_read(b: Seq<u8>, p: int, cells: Seq<LayoutTree>, i: nat)
    requires
        i <= cells.len(),
        text_at(b, p, cells_text(cells, i)),
        no_digit_at(b, p + cells_text(cells, i).len()),
        !stands(b, p + cells_text(cells, i).len(), 44),
    ensures
        more_cells(b, p) == Some((p + cells_text(cells, i).len(), leaves_from(cells, i))),
    decreases cells, cells.len() - i,
{
    if i < cells.len() {
        let c = cell_text(cells[i as int]);
        let r = cells_text(cells, i + 1);
        parts_stand(b, p, seq![44u8] + c, r);
        parts_stand(b, p, seq![44u8], c);
        assert(b[p + 0] == 44u8);
        let f = p + 1 + c.len();
        if i + 1 < cells.len() {
            assert(r[0] == 44u8);
            assert(b[f + 0] == 44u8);
        }
        cell_is_read(b, p + 1, cells[i as int]);
        cells_are_read(b, f, cells, i + 1);
    }
}

/// The commas of a checksum are not looked for beyond the first.
proof fn comma_is_found(b: Seq<u8>, p: int, e: int)
    requires
        0 <= p <= e < b.len(),
        forall|i: int| p <= i < e ==> #[trigger] b[i] != 44,
        b[e] == 44,
    ensures
        first_comma(b, p) == e,
    decreases e - p,
{
    if p < e {
        comma_is_found(b, p + 1, e);
    }
}

/// Reading a layout as tmux writes it gives back its panes, in order: a checksum
/// without a comma, a comma, and the cell of the whole window.
pub proof fn layout_is_read(checksum: Seq<u8>, t: LayoutTree)
    requires
        forall|i: int| 0 <= i < checksum.len() ==> #[trigger] checksum[i] != 44,
    ensures
        layout_panes(checksum + seq![44u8] + cell_text(t)) == leaves(t),
{
    let b = checksum + seq![44u8] + cell_text(t);
    let n = checksum.len() as int;
    comma_is_found(b, 0, n);
    cell_is_read(b, n + 1, t);
}

} // verus!
