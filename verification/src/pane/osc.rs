//! OSC boundary scanner for the raw byte stream.
//!
//! Finds the OSC sequences to intercept (133, 7, 9), with their place and
//! content. Other sequences (window title, colors, clipboard) are not matched:
//! they pass through to the terminal.

use crate::text::{utf8_of, utf8_text};
use vstd::prelude::*;
use vstd::slice::slice_subrange;

verus! {

/// An intercepted OSC sequence.
#[derive(Debug, Clone, PartialEq, Eq)]
pub struct OscMatch {
    /// Offset of the ESC byte that starts the sequence.
    pub start: usize,
    /// Offset one past the terminator.
    pub end: usize,
    /// The content.
    pub event: OscEvent,
}

/// The content of an intercepted OSC sequence.
#[derive(Debug, Clone, PartialEq, Eq)]
pub enum OscEvent {
    /// OSC 133, shell integration: an uppercase letter and a parameter (the exit
    /// code for D, the command text for E).
    Osc133 { marker: u8, param: Option<String> },
    /// OSC 7, the working directory: `file://hostname/path`.
    Osc7 { uri: String },
    /// OSC 9, a desktop notification.
    Osc9 { text: String },
}

/// The content of a sequence, mathematically.
pub ghost enum OscEventModel {
    Osc133 { marker: u8, param: Option<Seq<char>> },
    Osc7 { uri: Seq<char> },
    Osc9 { text: Seq<char> },
}

impl View for OscEvent {
    type V = OscEventModel;

    open spec fn view(&self) -> OscEventModel {
        match *self {
            OscEvent::Osc133 { marker, param } => OscEventModel::Osc133 {
                marker,
                param: crate::text::opt_text(param),
            },
            OscEvent::Osc7 { uri } => OscEventModel::Osc7 { uri: uri@ },
            OscEvent::Osc9 { text } => OscEventModel::Osc9 { text: text@ },
        }
    }
}

/// A match, mathematically.
pub ghost struct OscMatchModel {
    pub start: int,
    pub end: int,
    pub event: OscEventModel,
}

impl View for OscMatch {
    type V = OscMatchModel;

    open spec fn view(&self) -> OscMatchModel {
        OscMatchModel { start: self.start as int, end: self.end as int, event: self.event@ }
    }
}

/// The place of the semicolon after the number at `i`; none where a terminator,
/// an ESC or the end comes first.
pub open spec fn semicolon_from(b: Seq<u8>, i: int) -> Option<int>
    decreases b.len() - i,
{
    if i < 0 || i >= b.len() {
        None
    } else if b[i] == 0x3b {
        Some(i)
    } else if b[i] == 0x07 || b[i] == 0x1b {
        None
    } else {
        semicolon_from(b, i + 1)
    }
}

/// The end of the sequence and of its data, for the first terminator at or
/// after `i`: BEL, or ESC and a backslash. None where another ESC or the end
/// comes first.
pub open spec fn terminator_from(b: Seq<u8>, i: int) -> Option<(int, int)>
    decreases b.len() - i,
{
    if i < 0 || i >= b.len() {
        None
    } else if b[i] == 0x07 {
        Some((i + 1, i))
    } else if b[i] == 0x1b {
        if i + 1 < b.len() && b[i + 1] == 0x5c {
            Some((i + 2, i))
        } else {
            None
        }
    } else {
        terminator_from(b, i + 1)
    }
}

/// The number 133.
pub open spec fn is_133(n: Seq<u8>) -> bool {
    n == seq![0x31u8, 0x33u8, 0x33u8]
}

/// The number 7.
pub open spec fn is_7(n: Seq<u8>) -> bool {
    n == seq![0x37u8]
}

/// The number 9.
pub open spec fn is_9(n: Seq<u8>) -> bool {
    n == seq![0x39u8]
}

/// The event of a sequence with that number and data; none where the data are
/// malformed.
pub open spec fn event_of(number: Seq<u8>, data: Seq<u8>) -> Option<OscEventModel> {
    if is_133(number) {
        if data.len() > 0 && 0x41 <= data[0] <= 0x5a {
            Some(
                OscEventModel::Osc133 {
                    marker: data[0],
                    param: if data.len() > 1 && data[1] == 0x3b {
                        utf8_of(data.subrange(2, data.len() as int))
                    } else {
                        None
                    },
                },
            )
        } else {
            None
        }
    } else if is_7(number) {
        match utf8_of(data) {
            Some(uri) => Some(OscEventModel::Osc7 { uri }),
            None => None,
        }
    } else if is_9(number) {
        match utf8_of(data) {
            Some(text) => Some(OscEventModel::Osc9 { text }),
            None => None,
        }
    } else {
        None
    }
}

/// The first sequence to intercept at or after `p`. One with malformed data is
/// skipped. None where a sequence that is incomplete comes first.
pub open spec fn osc_from(b: Seq<u8>, p: int) -> Option<OscMatchModel>
    decreases b.len() - p,
    via osc_scan_goes_on
{
    if p < 0 || p + 1 >= b.len() {
        None
    } else if b[p] != 0x1b || b[p + 1] != 0x5d {
        osc_from(b, p + 1)
    } else {
        match semicolon_from(b, p + 2) {
            None => osc_from(b, p + 2),
            Some(semi) => {
                let number = b.subrange(p + 2, semi);
                if !(is_133(number) || is_7(number) || is_9(number)) {
                    osc_from(b, p + 2)
                } else {
                    match terminator_from(b, semi + 1) {
                        None => None,
                        Some((end, data_end)) => match event_of(
                            number,
                            b.subrange(semi + 1, data_end),
                        ) {
                            Some(event) => Some(OscMatchModel { start: p, end, event }),
                            None => osc_from(b, end),
                        },
                    }
                }
            },
        }
    }
}

/// What is skipped leaves fewer bytes to scan.
#[via_fn]
proof fn osc_scan_goes_on(b: Seq<u8>, p: int) {
    semicolon_bounds(b, p + 2);
    match semicolon_from(b, p + 2) {
        Some(semi) => terminator_bounds(b, semi + 1),
        None => {},
    }
}

/// A semicolon found stands at or after the start.
proof fn semicolon_bounds(b: Seq<u8>, i: int)
    ensures
        match semicolon_from(b, i) {
            Some(s) => i <= s < b.len(),
            None => true,
        },
    decreases b.len() - i,
{
    if 0 <= i < b.len() && b[i] != 0x3b && b[i] != 0x07 && b[i] != 0x1b {
        semicolon_bounds(b, i + 1);
    }
}

/// A terminator found stands at or after the start, within the bytes.
proof fn terminator_bounds(b: Seq<u8>, i: int)
    ensures
        match terminator_from(b, i) {
            Some((end, data_end)) => i <= data_end < end <= b.len(),
            None => true,
        },
    decreases b.len() - i,
{
    if 0 <= i < b.len() && b[i] != 0x07 && b[i] != 0x1b {
        terminator_bounds(b, i + 1);
    }
}

/// A match lies within the bytes, at or after the start of the scan, starts
/// with ESC and `]`, and ends with BEL or ESC and a backslash.
pub proof fn match_is_delimited(b: Seq<u8>, p: int)
    requires
        0 <= p,
    ensures
        match osc_from(b, p) {
            Some(m) => {
                &&& p <= m.start
                &&& m.start + 2 < m.end <= b.len()
                &&& b[m.start] == 0x1b && b[m.start + 1] == 0x5d
                &&& b[m.end - 1] == 0x07 || (b[m.end - 2] == 0x1b && b[m.end - 1] == 0x5c)
            },
            None => true,
        },
    decreases b.len() - p,
{
    if p + 1 < b.len() {
        if b[p] != 0x1b || b[p + 1] != 0x5d {
            match_is_delimited(b, p + 1);
        } else {
            semicolon_bounds(b, p + 2);
            match semicolon_from(b, p + 2) {
                None => match_is_delimited(b, p + 2),
                Some(semi) => {
                    terminator_bounds(b, semi + 1);
                    terminator_ends(b, semi + 1);
                    let number = b.subrange(p + 2, semi);
                    if !(is_133(number) || is_7(number) || is_9(number)) {
                        match_is_delimited(b, p + 2);
                    } else {
                        match terminator_from(b, semi + 1) {
                            Some((end, _)) => match_is_delimited(b, end),
                            None => {},
                        }
                    }
                },
            }
        }
    }
}

/// A terminator is BEL, or ESC and a backslash.
proof fn terminator_ends(b: Seq<u8>, i: int)
    ensures
        match terminator_from(b, i) {
            Some((end, data_end)) => b[end - 1] == 0x07 || (b[end - 2] == 0x1b && b[end - 1]
                == 0x5c),
            None => true,
        },
    decreases b.len() - i,
{
    if 0 <= i < b.len() && b[i] != 0x07 && b[i] != 0x1b {
        terminator_ends(b, i + 1);
    }
}

/// The place of the semicolon after the number at `from`.
fn find_byte(bytes: &[u8], from: usize) -> (r: Option<usize>)
    requires
        from <= bytes@.len(),
    ensures
        match r {
            Some(s) => semicolon_from(bytes@, from as int) == Some(s as int) && from <= s
                < bytes@.len(),
            None => semicolon_from(bytes@, from as int) is None,
        },
{
    let mut i: usize = from;
    while i < bytes.len()
        invariant
            from <= i <= bytes@.len(),
            semicolon_from(bytes@, from as int) == semicolon_from(bytes@, i as int),
        decreases bytes@.len() - i,
    {
        if bytes[i] == 0x3b {
            return Some(i);
        }
        if bytes[i] == 0x07 || bytes[i] == 0x1b {
            return None;
        }
        i = i + 1;
    }
    None
}

/// The end of the sequence and of its data, for the first terminator at or
/// after `from`.
fn find_osc_terminator(bytes: &[u8], from: usize) -> (r: Option<(usize, usize)>)
    requires
        from <= bytes@.len(),
    ensures
        match r {
            Some((end, data_end)) => terminator_from(bytes@, from as int) == Some(
                (end as int, data_end as int),
            ) && from <= data_end < end <= bytes@.len(),
            None => terminator_from(bytes@, from as int) is None,
        },
{
    let n: usize = bytes.len();
    let mut i: usize = from;
    while i < n
        invariant
            from <= i <= n == bytes@.len(),
            terminator_from(bytes@, from as int) == terminator_from(bytes@, i as int),
        decreases n - i,
    {
        if bytes[i] == 0x07 {
            return Some((i + 1, i));
        }
        if bytes[i] == 0x1b {
            if i + 1 < n && bytes[i + 1] == 0x5c {
                return Some((i + 2, i));
            }
            return None;
        }
        i = i + 1;
    }
    None
}

/// Which number a sequence has.
#[derive(Clone, Copy, PartialEq, Eq, Structural)]
enum OscNumber {
    Shell,
    Directory,
    Desktop,
    Unlisted,
}

/// Which number the bytes write.
fn osc_number(n: &[u8]) -> (r: OscNumber)
    ensures
        (r == OscNumber::Shell) == is_133(n@),
        (r == OscNumber::Directory) == is_7(n@),
        (r == OscNumber::Desktop) == is_9(n@),
{
    assert(is_133(n@) ==> n@.len() == 3 && n@[0] == 0x31 && n@[1] == 0x33 && n@[2] == 0x33);
    assert(is_7(n@) ==> n@.len() == 1 && n@[0] == 0x37);
    assert(is_9(n@) ==> n@.len() == 1 && n@[0] == 0x39);
    if n.len() == 3 && n[0] == 0x31 && n[1] == 0x33 && n[2] == 0x33 {
        assert(n@ =~= seq![0x31u8, 0x33u8, 0x33u8]);
        OscNumber::Shell
    } else if n.len() == 1 && n[0] == 0x37 {
        assert(n@ =~= seq![0x37u8]);
        OscNumber::Directory
    } else if n.len() == 1 && n[0] == 0x39 {
        assert(n@ =~= seq![0x39u8]);
        OscNumber::Desktop
    } else {
        OscNumber::Unlisted
    }
}

/// The event of a sequence with that number and data.
fn parse_osc_event(number: &[u8], data: &[u8]) -> (r: Option<OscEvent>)
    ensures
        match r {
            Some(e) => event_of(number@, data@) == Some(e@),
            None => event_of(number@, data@) is None,
        },
{
    match osc_number(number) {
        OscNumber::Shell => {
            if data.len() == 0 || data[0] < 0x41 || data[0] > 0x5a {
                return None;
            }
            let param = if data.len() > 1 && data[1] == 0x3b {
                utf8_text(slice_subrange(data, 2, data.len()))
            } else {
                None
            };
            Some(OscEvent::Osc133 { marker: data[0], param })
        },
        OscNumber::Directory => match utf8_text(data) {
            Some(uri) => Some(OscEvent::Osc7 { uri }),
            None => None,
        },
        OscNumber::Desktop => match utf8_text(data) {
            Some(text) => Some(OscEvent::Osc9 { text }),
            None => None,
        },
        OscNumber::Unlisted => None,
    }
}

/// Find the next intercepted OSC sequence: ESC `]` number `;` data terminator,
/// where the terminator is BEL or ESC and a backslash.
///
/// One whose data are malformed is skipped. Returns `None` where there is none,
/// and where it is still incomplete.
pub fn find_next_osc(bytes: &[u8]) -> (r: Option<OscMatch>)
    ensures
        match r {
            Some(m) => osc_from(bytes@, 0) == Some(m@) && m.start + 2 < m.end <= bytes@.len(),
            None => osc_from(bytes@, 0) is None,
        },
{
    let n: usize = bytes.len();
    let mut pos: usize = 0;
    while pos < n && pos + 1 < n
        invariant
            pos <= n == bytes@.len(),
            osc_from(bytes@, 0) == osc_from(bytes@, pos as int),
        decreases n - pos,
    {
        proof {
            match_is_delimited(bytes@, pos as int);
        }
        if bytes[pos] != 0x1b || bytes[pos + 1] != 0x5d {
            pos = pos + 1;
        } else {
            match find_byte(bytes, pos + 2) {
                None => {
                    pos = pos + 2;
                },
                Some(semi) => {
                    let number = slice_subrange(bytes, pos + 2, semi);
                    if osc_number(number) == OscNumber::Unlisted {
                        pos = pos + 2;
                    } else {
                        match find_osc_terminator(bytes, semi + 1) {
                            None => {
                                return None;
                            },
                            Some((end, data_end)) => {
                                let data = slice_subrange(bytes, semi + 1, data_end);
                                match parse_osc_event(number, data) {
                                    Some(event) => {
                                        return Some(OscMatch { start: pos, end, event });
                                    },
                                    None => {
                                        pos = end;
                                    },
                                }
                            },
                        }
                    }
                },
            }
        }
    }
    None
}

/// Find the next intercepted OSC sequence at or after `offset`, with its place
/// in all of `bytes`.
pub fn find_next_osc_from(bytes: &[u8], offset: usize) -> (r: Option<OscMatch>)
    ensures
        ({
            let tail = bytes@.subrange(offset as int, bytes@.len() as int);
            match r {
                Some(m) => offset < bytes@.len() && osc_from(tail, 0) == Some(
                    OscMatchModel { start: m.start - offset, end: m.end - offset, event: m.event@ },
                ) && offset <= m.start && m.start + 2 < m.end <= bytes@.len(),
                None => offset >= bytes@.len() || osc_from(tail, 0) is None,
            }
        }),
{
    let n: usize = bytes.len();
    if offset >= n {
        return None;
    }
    match find_next_osc(slice_subrange(bytes, offset, n)) {
        Some(m) => Some(
            OscMatch { start: m.start + offset, end: m.end + offset, event: m.event },
        ),
        None => None,
    }
}

/// A marker sequence without a parameter, ended by BEL or by ESC and a backslash.
pub open spec fn marker_bytes(marker: u8, bel: bool) -> Seq<u8> {
    seq![0x1bu8, 0x5d, 0x31, 0x33, 0x33, 0x3b, marker] + (if bel {
        seq![0x07u8]
    } else {
        seq![0x1bu8, 0x5c]
    })
}

/// A sequence with malformed data is as if it were not there: the scan from its
/// start finds what the scan from its end finds.
pub proof fn malformed_is_skipped(b: Seq<u8>, p: int, semi: int, end: int, data_end: int)
    requires
        0 <= p,
        p + 1 < b.len(),
        b[p] == 0x1b,
        b[p + 1] == 0x5d,
        semicolon_from(b, p + 2) == Some(semi),
        terminator_from(b, semi + 1) == Some((end, data_end)),
        ({
            let number = b.subrange(p + 2, semi);
            (is_133(number) || is_7(number) || is_9(number)) && event_of(
                number,
                b.subrange(semi + 1, data_end),
            ) is None
        }),
    ensures
        osc_from(b, p) == osc_from(b, end),
{
}

/// A scan over bytes without an ESC goes on behind them.
proof fn plain_bytes_are_passed(b: Seq<u8>, p: int, e: int)
    requires
        0 <= p <= e,
        e + 1 < b.len(),
        forall|i: int| p <= i < e ==> #[trigger] b[i] != 0x1b,
    ensures
        osc_from(b, p) == osc_from(b, e),
    decreases e - p,
{
    if p < e {
        plain_bytes_are_passed(b, p + 1, e);
    }
}

/// A marker that a shell writes is found, wherever it stands behind text, and what
/// follows it does not matter.
pub proof fn written_marker_is_found(before: Seq<u8>, marker: u8, bel: bool, after: Seq<u8>)
    requires
        0x41 <= marker <= 0x5a,
        forall|i: int| 0 <= i < before.len() ==> #[trigger] before[i] != 0x1b,
    ensures
        osc_from(before + marker_bytes(marker, bel) + after, 0) == Some(
            OscMatchModel {
                start: before.len() as int,
                end: (before.len() + marker_bytes(marker, bel).len()) as int,
                event: OscEventModel::Osc133 { marker, param: None },
            },
        ),
{
    let m = marker_bytes(marker, bel);
    let b = before + m + after;
    let p = before.len() as int;
    assert(forall|i: int| 0 <= i < m.len() ==> b[p + i] == m[i]);
    assert(b[p] == m[0] && b[p + 1] == m[1] && b[p + 2] == m[2] && b[p + 3] == m[3] && b[p + 4]
        == m[4] && b[p + 5] == m[5] && b[p + 6] == m[6] && b[p + 7] == m[7]);
    assert(!bel ==> b[p + 8] == 0x5c);
    plain_bytes_are_passed(b, 0, p);
    reveal_with_fuel(semicolon_from, 5);
    reveal_with_fuel(terminator_from, 3);
    assert(semicolon_from(b, p + 2) == Some(p + 5));
    assert(b.subrange(p + 2, p + 5) =~= seq![0x31u8, 0x33, 0x33]);
    assert(terminator_from(b, p + 6) == Some((p + m.len(), p + 7)));
    assert(b.subrange(p + 6, p + 7) =~= seq![marker]);
}

/// A sequence as a shell writes it: its number, a semicolon and its data, ended by
/// BEL or by ESC and a backslash.
pub open spec fn sequence_bytes(number: Seq<u8>, data: Seq<u8>, bel: bool) -> Seq<u8> {
    seq![0x1bu8, 0x5d] + number + seq![0x3bu8] + data + (if bel {
        seq![0x07u8]
    } else {
        seq![0x1bu8, 0x5c]
    })
}

/// A sequence that a shell writes is found behind text, by either of its ends, with
/// its data: a marker with what stands behind its semicolon, a reported address and
/// a notification.
pub proof fn written_sequence_is_found(
    before: Seq<u8>,
    data: Seq<u8>,
    bel: bool,
    after: Seq<u8>,
    marker: u8,
    text: Seq<char>,
)
    requires
        forall|i: int| 0 <= i < before.len() ==> #[trigger] before[i] != 0x1b,
        forall|i: int| 0 <= i < data.len() ==> #[trigger] data[i] != 0x1b && data[i] != 0x07,
        utf8_of(data) == Some(text),
        0x41 <= marker <= 0x5a,
    ensures
        osc_from(
            before + sequence_bytes(seq![0x37u8], data, bel) + after,
            0,
        ) matches Some(m) && m.event == (OscEventModel::Osc7 { uri: text }) && m.start
            == before.len() && m.end == before.len() + sequence_bytes(seq![0x37u8], data, bel).len(),
        osc_from(
            before + sequence_bytes(seq![0x39u8], data, bel) + after,
            0,
        ) matches Some(m) && m.event == (OscEventModel::Osc9 { text }),
        osc_from(
            before + sequence_bytes(
                seq![0x31u8, 0x33u8, 0x33u8],
                seq![marker, 0x3bu8] + data,
                bel,
            ) + after,
            0,
        ) matches Some(m) && m.event == (OscEventModel::Osc133 { marker, param: Some(text) }),
{
    let full = seq![marker, 0x3bu8] + data;
    assert forall|i: int| 0 <= i < full.len() implies #[trigger] full[i] != 0x1b && full[i]
        != 0x07 by {
        if i >= 2 {
            assert(full[i] == data[i - 2]);
        }
    }
    assert(full.subrange(2, full.len() as int) =~= data);
    assert(full[0] == marker && full[1] == 0x3b);
    let n133 = seq![0x31u8, 0x33u8, 0x33u8];
    let n7 = seq![0x37u8];
    let n9 = seq![0x39u8];
    assert(n7.len() == 1 && n9.len() == 1 && n133.len() == 3 && n7[0] == 0x37 && n9[0] == 0x39);
    assert(is_7(n7) && is_9(n9) && is_133(n133) && !is_133(n7) && !is_133(n9) && !is_7(n9));
    sequence_is_cut_out(before, n7, data, bel, after);
    sequence_is_cut_out(before, n9, data, bel, after);
    sequence_is_cut_out(before, n133, full, bel, after);
}

/// A sequence is cut out of what stands around it.
proof fn sequence_is_cut_out(
    before: Seq<u8>,
    number: Seq<u8>,
    data: Seq<u8>,
    bel: bool,
    after: Seq<u8>,
)
    requires
        forall|i: int| 0 <= i < before.len() ==> #[trigger] before[i] != 0x1b,
        forall|i: int| 0 <= i < data.len() ==> #[trigger] data[i] != 0x1b && data[i] != 0x07,
        is_133(number) || is_7(number) || is_9(number),
        event_of(number, data) is Some,
    ensures
        osc_from(before + sequence_bytes(number, data, bel) + after, 0) == Some(
            OscMatchModel {
                start: before.len() as int,
                end: (before.len() + sequence_bytes(number, data, bel).len()) as int,
                event: event_of(number, data)->0,
            },
        ),
{
    let m = sequence_bytes(number, data, bel);
    let b = before + m + after;
    let p = before.len() as int;
    let semi = p + 2 + number.len();
    let e = semi + 1 + data.len();
    assert(forall|i: int| 0 <= i < m.len() ==> b[p + i] == m[i]);
    assert(b[p] == m[0] && b[p + 1] == m[1] && m[0] == 0x1b && m[1] == 0x5d);
    plain_bytes_are_passed(b, 0, p);
    assert forall|i: int| p + 2 <= i < semi implies #[trigger] b[i] == number[i - p - 2] by {
        assert(b[p + (i - p)] == m[i - p]);
    }
    assert(b[semi] == 0x3b) by {
        assert(b[p + (semi - p)] == m[semi - p]);
    }
    assert forall|i: int| semi + 1 <= i < e implies #[trigger] b[i] == data[i - semi - 1] by {
        assert(b[p + (i - p)] == m[i - p]);
    }
    assert(b.subrange(p + 2, semi) =~= number);
    assert(b.subrange(semi + 1, e) =~= data);
    assert forall|i: int| p + 2 <= i < semi implies #[trigger] b[i] != 0x3b && b[i] != 0x07 && b[i]
        != 0x1b by {
        assert(b[i] == number[i - p - 2]);
    }
    semicolon_is_there(b, p + 2, semi);
    assert(b[e] == if bel {
        0x07u8
    } else {
        0x1bu8
    }) by {
        assert(b[p + (e - p)] == m[e - p]);
    }
    assert(!bel ==> b[e + 1] == 0x5c) by {
        if !bel {
            assert(b[p + (e + 1 - p)] == m[e + 1 - p]);
        }
    }
    assert forall|i: int| semi + 1 <= i < e implies #[trigger] b[i] != 0x07 && b[i] != 0x1b by {
        assert(b[i] == data[i - semi - 1]);
    }
    terminator_is_there(b, semi + 1, e);
}

/// A semicolon behind a number is found.
proof fn semicolon_is_there(b: Seq<u8>, i: int, semi: int)
    requires
        0 <= i <= semi < b.len(),
        b[semi] == 0x3b,
        forall|k: int|
            i <= k < semi ==> #[trigger] b[k] != 0x3b && b[k] != 0x07 && b[k] != 0x1b,
    ensures
        semicolon_from(b, i) == Some(semi),
    decreases semi - i,
{
    if i < semi {
        assert(b[i] != 0x3b);
        semicolon_is_there(b, i + 1, semi);
    }
}

/// A terminator behind data is found.
proof fn terminator_is_there(b: Seq<u8>, i: int, e: int)
    requires
        0 <= i <= e < b.len(),
        b[e] == 0x07 || (b[e] == 0x1b && e + 1 < b.len() && b[e + 1] == 0x5c),
        forall|k: int| i <= k < e ==> #[trigger] b[k] != 0x07 && b[k] != 0x1b,
    ensures
        terminator_from(b, i) == Some(
            (
                if b[e] == 0x07 {
                    e + 1
                } else {
                    e + 2
                },
                e,
            ),
        ),
    decreases e - i,
{
    if i < e {
        assert(b[i] != 0x07);
        terminator_is_there(b, i + 1, e);
    }
}

} // verus!
