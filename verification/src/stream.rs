//! Per-pane raw byte stream with position-indexed storage and a reversible
//! reader.
//!
//! `RawStream` is an append-only buffer of raw terminal bytes with monotonic
//! absolute offsets. `StreamReader` is a cursor over it: forward reads,
//! backward scans, seek, rewind and peek.
//!
//! Storage is one flat `Vec<u8>` whose front is cut off on compaction, so a
//! returned `&[u8]` is always contiguous.

use vstd::prelude::*;
use vstd::slice::slice_subrange;

verus! {

/// Soft capacity of a stream made by `RawStream::new`.
pub const DEFAULT_CAPACITY: usize = 262_144;

/// What a stream holds, mathematically.
pub struct StreamModel {
    /// Absolute offset of the oldest retained byte.
    pub start: int,
    /// The retained bytes, oldest first.
    pub bytes: Seq<u8>,
    /// Bytes before this absolute offset may be evicted.
    pub safe: int,
    /// Soft limit on the number of retained bytes.
    pub limit: int,
}

impl StreamModel {
    /// Absolute offset one past the newest byte.
    pub open spec fn end(self) -> int {
        self.start + self.bytes.len()
    }

    /// The byte at an absolute offset.
    pub open spec fn byte_at(self, offset: int) -> u8 {
        self.bytes[offset - self.start]
    }

    /// `offset` moved into `[start, end]`.
    pub open spec fn clamp(self, offset: int) -> int {
        if offset < self.start {
            self.start
        } else if offset > self.end() {
            self.end()
        } else {
            offset
        }
    }

    /// The retained bytes of the absolute range `[from, to)`.
    pub open spec fn range(self, from: int, to: int) -> Seq<u8> {
        let lo = if from < self.start { self.start } else { from };
        let hi = if to > self.end() { self.end() } else { to };
        if lo >= hi {
            Seq::empty()
        } else {
            self.bytes.subrange(lo - self.start, hi - self.start)
        }
    }

    /// How many of `len` buffered bytes a compaction removes.
    pub open spec fn evicted(self, len: int) -> int {
        if len > self.limit && self.safe > self.start {
            if self.safe - self.start < len {
                self.safe - self.start
            } else {
                len
            }
        } else {
            0
        }
    }

    /// The stream after `data` was appended.
    pub open spec fn appended(self, data: Seq<u8>) -> StreamModel {
        let joined = self.bytes + data;
        let cut = self.evicted(joined.len() as int);
        StreamModel {
            start: self.start + cut,
            bytes: joined.subrange(cut, joined.len() as int),
            safe: self.safe,
            limit: self.limit,
        }
    }
}

/// Whether `needle` stands in `data` at index `i`.
pub open spec fn occurs_at(data: Seq<u8>, needle: Seq<u8>, i: int) -> bool {
    0 <= i && i + needle.len() <= data.len() && data.subrange(i, i + needle.len()) == needle
}

/// Appending keeps every retained byte at its absolute offset, never moves the
/// head backward, and evicts nothing at or after the safe boundary.
pub proof fn append_preserves_offsets(m: StreamModel, data: Seq<u8>, offset: int)
    requires
        m.start <= offset < m.end() + data.len(),
    ensures
        m.appended(data).end() == m.end() + data.len(),
        m.start <= m.appended(data).start,
        m.appended(data).start > m.start ==> m.appended(data).start <= m.safe,
        m.safe <= offset ==> m.appended(data).start <= offset,
        m.appended(data).start <= offset ==> m.appended(data).byte_at(offset) == if offset
            < m.end() {
            m.byte_at(offset)
        } else {
            data[offset - m.end()]
        },
{
}

/// Without a safe boundary past the tail nothing is ever evicted, whatever the
/// capacity.
pub proof fn append_without_boundary_keeps_all(m: StreamModel, data: Seq<u8>)
    requires
        m.safe <= m.start,
    ensures
        m.appended(data).start == m.start,
        m.appended(data).bytes == m.bytes + data,
{
    assert((m.bytes + data).subrange(0, (m.bytes + data).len() as int) =~= m.bytes + data);
}

/// Two appends give the bytes of one append of both pieces, where neither
/// reaches the capacity.
pub proof fn append_twice(m: StreamModel, a: Seq<u8>, b: Seq<u8>)
    requires
        m.bytes.len() + a.len() + b.len() <= m.limit,
    ensures
        m.appended(a).appended(b) == m.appended(a + b),
{
    assert(m.appended(a).bytes =~= m.bytes + a);
    assert(m.appended(a).appended(b).bytes =~= m.appended(a + b).bytes);
}

/// Append-only byte buffer with absolute offsets.
#[derive(Debug)]
pub struct RawStream {
    buf: Vec<u8>,
    base_offset: u64,
    safe_evict_offset: u64,
    capacity: usize,
}

impl View for RawStream {
    type V = StreamModel;

    closed spec fn view(&self) -> StreamModel {
        StreamModel {
            start: self.base_offset as int,
            bytes: self.buf@,
            safe: self.safe_evict_offset as int,
            limit: self.capacity as int,
        }
    }
}

impl RawStream {
    /// Every absolute offset fits the offset type. Every stream starts so, and
    /// every operation keeps it.
    pub open spec fn valid(&self) -> bool {
        self@.end() <= u64::MAX
    }

    /// An empty stream with the default capacity.
    pub fn new() -> (r: Self)
        ensures
            r.valid(),
            r@ == (StreamModel {
                start: 0,
                bytes: Seq::empty(),
                safe: 0,
                limit: DEFAULT_CAPACITY as int,
            }),
    {
        Self { buf: Vec::new(), base_offset: 0, safe_evict_offset: 0, capacity: DEFAULT_CAPACITY }
    }

    /// An empty stream with the given soft capacity.
    pub fn with_capacity(capacity: usize) -> (r: Self)
        ensures
            r.valid(),
            r@ == (StreamModel { start: 0, bytes: Seq::empty(), safe: 0, limit: capacity as int }),
    {
        Self { buf: Vec::new(), base_offset: 0, safe_evict_offset: 0, capacity }
    }

    /// Append raw bytes. Compacts if over capacity.
    pub fn append(&mut self, data: &[u8])
        requires
            old(self)@.end() + data@.len() <= u64::MAX,
        ensures
            final(self)@ == old(self)@.appended(data@),
            final(self).valid(),
    {
        self.buf.extend_from_slice(data);
        assert(self.buf@ =~= old(self).buf@ + data@);
        if self.buf.len() > self.capacity {
            self.compact();
        } else {
            assert(self.buf@.subrange(0, self.buf@.len() as int) =~= self.buf@);
        }
    }

    /// Absolute offset one past the last byte.
    pub fn head(&self) -> (r: u64)
        requires
            self.valid(),
        ensures
            r == self@.end(),
    {
        self.base_offset + self.buf.len() as u64
    }

    /// Absolute offset of the oldest available byte.
    pub fn tail(&self) -> (r: u64)
        ensures
            r == self@.start,
    {
        self.base_offset
    }

    /// Number of retained bytes.
    pub fn len(&self) -> (r: usize)
        ensures
            r == self@.bytes.len(),
    {
        self.buf.len()
    }

    /// Whether no byte is retained.
    pub fn is_empty(&self) -> (r: bool)
        ensures
            r == (self@.bytes.len() == 0),
    {
        self.buf.len() == 0
    }

    /// Total bytes ever written, evicted ones included.
    pub fn total_written(&self) -> (r: u64)
        requires
            self.valid(),
        ensures
            r == self@.end(),
    {
        self.head()
    }

    /// Bytes before this absolute offset may be evicted.
    pub fn safe_evict_offset(&self) -> (r: u64)
        ensures
            r == self@.safe,
    {
        self.safe_evict_offset
    }

    /// Mark a safe eviction point. Only advances, never retreats.
    pub fn mark_safe_boundary(&mut self, offset: u64)
        ensures
            final(self).valid() == old(self).valid(),
            final(self)@ == (StreamModel {
                safe: if offset > old(self)@.safe {
                    offset as int
                } else {
                    old(self)@.safe
                },
                ..old(self)@
            }),
    {
        if offset > self.safe_evict_offset {
            self.safe_evict_offset = offset;
        }
    }

    /// A reader positioned at the given offset, clamped to [tail, head].
    pub fn reader(&self, cursor: u64) -> (r: StreamReader<'_>)
        requires
            self.valid(),
        ensures
            r.stream_model() == self@,
            r.position() == self@.clamp(cursor as int),
    {
        let tail: u64 = self.tail();
        let head: u64 = self.head();
        let clamped: u64 = if cursor < tail {
            tail
        } else if cursor > head {
            head
        } else {
            cursor
        };
        StreamReader { stream: self, cursor: clamped }
    }

    /// A reader at the oldest available byte.
    pub fn reader_at_tail(&self) -> (r: StreamReader<'_>)
        requires
            self.valid(),
        ensures
            r.stream_model() == self@,
            r.position() == self@.start,
    {
        self.reader(self.tail())
    }

    /// A reader past the newest byte.
    pub fn reader_at_head(&self) -> (r: StreamReader<'_>)
        requires
            self.valid(),
        ensures
            r.stream_model() == self@,
            r.position() == self@.end(),
    {
        self.reader(self.head())
    }

    /// Bytes from an absolute offset to the head. Empty if out of range.
    fn read_from(&self, offset: u64) -> (r: &[u8])
        requires
            self.valid(),
        ensures
            r@ == if offset < self@.start {
                Seq::empty()
            } else {
                self@.range(offset as int, self@.end())
            },
    {
        if offset < self.base_offset || offset >= self.head() {
            return slice_subrange(self.buf.as_slice(), 0, 0);
        }
        let start: usize = (offset - self.base_offset) as usize;
        slice_subrange(self.buf.as_slice(), start, self.buf.len())
    }

    /// Bytes from absolute offset `from` up to (not including) `to`.
    fn read_range(&self, from: u64, to: u64) -> (r: &[u8])
        requires
            self.valid(),
        ensures
            r@ == self@.range(from as int, to as int),
    {
        let head: u64 = self.head();
        let from: u64 = if from < self.base_offset {
            self.base_offset
        } else {
            from
        };
        let to: u64 = if to > head {
            head
        } else {
            to
        };
        if from >= to {
            return slice_subrange(self.buf.as_slice(), 0, 0);
        }
        let held: usize = self.buf.len();
        assert(to - self.base_offset <= held);
        let start: usize = (from - self.base_offset) as usize;
        let end: usize = (to - self.base_offset) as usize;
        slice_subrange(self.buf.as_slice(), start, end)
    }

    fn compact(&mut self)
        requires
            old(self).valid(),
            old(self)@.bytes.len() > old(self)@.limit,
        ensures
            final(self)@ == (StreamModel {
                start: old(self)@.start + old(self)@.evicted(old(self)@.bytes.len() as int),
                bytes: old(self)@.bytes.subrange(
                    old(self)@.evicted(old(self)@.bytes.len() as int),
                    old(self)@.bytes.len() as int,
                ),
                ..old(self)@
            }),
    {
        assert(self.buf@.subrange(0, self.buf@.len() as int) =~= self.buf@);
        let evict_to: u64 = self.safe_evict_offset;
        if evict_to <= self.base_offset {
            return ;
        }
        let wanted: u64 = evict_to - self.base_offset;
        let len: usize = self.buf.len();
        let drain_count: usize = if wanted < len as u64 {
            wanted as usize
        } else {
            len
        };
        if drain_count == 0 {
            return ;
        }
        let kept = self.buf.split_off(drain_count);
        self.buf = kept;
        self.base_offset = self.base_offset + drain_count as u64;
    }
}

impl Default for RawStream {
    fn default() -> (r: Self)
        ensures
            r.valid(),
            r@ == (StreamModel {
                start: 0,
                bytes: Seq::empty(),
                safe: 0,
                limit: DEFAULT_CAPACITY as int,
            }),
    {
        Self::new()
    }
}

/// Reversible reader over a `RawStream`.
///
/// The cursor is an absolute byte offset that moves in either direction within
/// the stream's available range [tail, head].
#[derive(Debug)]
pub struct StreamReader<'a> {
    stream: &'a RawStream,
    cursor: u64,
}

impl<'a> StreamReader<'a> {
    #[verifier::type_invariant]
    spec fn cursor_in_range(self) -> bool {
        self.stream@.start <= self.cursor <= self.stream@.end() <= u64::MAX
    }

    /// The stream that is read.
    pub closed spec fn stream_model(self) -> StreamModel {
        self.stream@
    }

    /// The cursor's absolute offset.
    pub closed spec fn position(self) -> int {
        self.cursor as int
    }

    /// Current absolute cursor position.
    pub fn cursor(&self) -> (r: u64)
        ensures
            r == self.position(),
            self.stream_model().start <= r <= self.stream_model().end(),
    {
        proof {
            use_type_invariant(self);
        }
        self.cursor
    }

    /// Absolute offset of the oldest available byte.
    pub fn tail(&self) -> (r: u64)
        ensures
            r == self.stream_model().start,
    {
        self.stream.tail()
    }

    /// Absolute offset one past the newest byte.
    pub fn head(&self) -> (r: u64)
        ensures
            r == self.stream_model().end(),
    {
        proof {
            use_type_invariant(self);
        }
        self.stream.head()
    }

    /// Bytes available forward from cursor to head.
    pub fn remaining(&self) -> (r: usize)
        ensures
            r == self.stream_model().end() - self.position(),
    {
        proof {
            use_type_invariant(self);
        }
        let n: u64 = self.head() - self.cursor;
        let held: usize = self.stream.len();
        assert(n <= held);
        n as usize
    }

    /// Bytes available backward from cursor to tail.
    pub fn preceding(&self) -> (r: usize)
        ensures
            r == self.position() - self.stream_model().start,
    {
        proof {
            use_type_invariant(self);
        }
        let n: u64 = self.cursor - self.tail();
        let held: usize = self.stream.len();
        assert(n <= held);
        n as usize
    }

    /// Whether the cursor is at the head (nothing to read forward).
    pub fn at_end(&self) -> (r: bool)
        ensures
            r == (self.position() == self.stream_model().end()),
    {
        proof {
            use_type_invariant(self);
        }
        self.cursor >= self.head()
    }

    /// Whether the cursor is at the tail (nothing to read backward).
    pub fn at_start(&self) -> (r: bool)
        ensures
            r == (self.position() == self.stream_model().start),
    {
        proof {
            use_type_invariant(self);
        }
        self.cursor <= self.tail()
    }

    /// Look at up to `max_len` bytes ahead without moving the cursor.
    pub fn peek(&self, max_len: usize) -> (r: &'a [u8])
        ensures
            r@ == self.stream_model().range(self.position(), self.position() + max_len),
    {
        proof {
            use_type_invariant(self);
        }
        let all = self.stream.read_from(self.cursor);
        let n: usize = if all.len() < max_len {
            all.len()
        } else {
            max_len
        };
        let out = slice_subrange(all, 0, n);
        assert(out@ =~= self.stream_model().range(self.position(), self.position() + max_len));
        out
    }

    /// Look at all remaining bytes without moving the cursor.
    pub fn peek_all(&self) -> (r: &'a [u8])
        ensures
            r@ == self.stream_model().range(self.position(), self.stream_model().end()),
    {
        proof {
            use_type_invariant(self);
        }
        self.stream.read_from(self.cursor)
    }

    /// Move cursor forward by `n` bytes. Clamps to head.
    pub fn advance(&mut self, n: usize)
        ensures
            final(self).stream_model() == old(self).stream_model(),
            final(self).position() == old(self).stream_model().clamp(old(self).position() + n),
    {
        proof {
            use_type_invariant(&*self);
        }
        let head: u64 = self.head();
        let left: u64 = head - self.cursor;
        if n as u64 >= left {
            self.cursor = head;
        } else {
            self.cursor = self.cursor + n as u64;
        }
    }

    /// Read up to `max_len` bytes and advance the cursor past them.
    pub fn read(&mut self, max_len: usize) -> (r: &'a [u8])
        ensures
            r@ == old(self).stream_model().range(
                old(self).position(),
                old(self).position() + max_len,
            ),
            final(self).stream_model() == old(self).stream_model(),
            final(self).position() == old(self).stream_model().clamp(
                old(self).position() + max_len,
            ),
    {
        proof {
            use_type_invariant(&*self);
        }
        let data = self.peek(max_len);
        self.cursor = self.cursor + data.len() as u64;
        data
    }

    /// Read all remaining bytes and advance to head.
    pub fn read_all(&mut self) -> (r: &'a [u8])
        ensures
            r@ == old(self).stream_model().range(
                old(self).position(),
                old(self).stream_model().end(),
            ),
            final(self).stream_model() == old(self).stream_model(),
            final(self).position() == old(self).stream_model().end(),
    {
        proof {
            use_type_invariant(&*self);
        }
        let data = self.peek_all();
        self.cursor = self.head();
        data
    }

    /// Look at up to `max_len` bytes behind the cursor without moving it.
    /// Returns bytes in forward order (oldest first).
    pub fn peek_back(&self, max_len: usize) -> (r: &'a [u8])
        ensures
            r@ == self.stream_model().range(self.position() - max_len, self.position()),
    {
        proof {
            use_type_invariant(self);
        }
        let avail: usize = self.preceding();
        let n: usize = if avail < max_len {
            avail
        } else {
            max_len
        };
        let from: u64 = self.cursor - n as u64;
        self.stream.read_range(from, self.cursor)
    }

    /// Move cursor backward by `n` bytes. Clamps to tail.
    pub fn rewind(&mut self, n: usize)
        ensures
            final(self).stream_model() == old(self).stream_model(),
            final(self).position() == old(self).stream_model().clamp(old(self).position() - n),
    {
        proof {
            use_type_invariant(&*self);
        }
        let tail: u64 = self.tail();
        let behind: u64 = self.cursor - tail;
        if n as u64 >= behind {
            self.cursor = tail;
        } else {
            self.cursor = self.cursor - n as u64;
        }
    }

    /// Read up to `max_len` bytes behind the cursor and move the cursor back
    /// past them. Returns bytes in forward order.
    pub fn read_back(&mut self, max_len: usize) -> (r: &'a [u8])
        ensures
            r@ == old(self).stream_model().range(
                old(self).position() - max_len,
                old(self).position(),
            ),
            final(self).stream_model() == old(self).stream_model(),
            final(self).position() == old(self).stream_model().clamp(
                old(self).position() - max_len,
            ),
    {
        proof {
            use_type_invariant(&*self);
        }
        let data = self.peek_back(max_len);
        self.cursor = self.cursor - data.len() as u64;
        data
    }

    /// Move cursor to an absolute offset. Clamps to [tail, head].
    pub fn seek(&mut self, offset: u64)
        ensures
            final(self).stream_model() == old(self).stream_model(),
            final(self).position() == old(self).stream_model().clamp(offset as int),
    {
        proof {
            use_type_invariant(&*self);
        }
        let tail: u64 = self.tail();
        let head: u64 = self.head();
        let target: u64 = if offset < tail {
            tail
        } else if offset > head {
            head
        } else {
            offset
        };
        self.cursor = target;
    }

    /// Move cursor to the tail (oldest available byte).
    pub fn seek_to_tail(&mut self)
        ensures
            final(self).stream_model() == old(self).stream_model(),
            final(self).position() == old(self).stream_model().start,
    {
        proof {
            use_type_invariant(&*self);
        }
        let tail: u64 = self.tail();
        self.cursor = tail;
    }

    /// Move cursor to the head (one past newest byte).
    pub fn seek_to_head(&mut self)
        ensures
            final(self).stream_model() == old(self).stream_model(),
            final(self).position() == old(self).stream_model().end(),
    {
        let head: u64 = self.head();
        self.cursor = head;
    }

    /// Read a range [from, to) without moving the cursor.
    pub fn slice(&self, from: u64, to: u64) -> (r: &'a [u8])
        ensures
            r@ == self.stream_model().range(from as int, to as int),
    {
        proof {
            use_type_invariant(self);
        }
        self.stream.read_range(from, to)
    }

    /// Scan backward from cursor for a byte sequence. Returns the absolute
    /// offset of the match start, or None. Does not move the cursor.
    pub fn rfind(&self, needle: &[u8]) -> (r: Option<u64>)
        ensures
            needle@.len() == 0 ==> r == Some(self.position() as u64),
            needle@.len() > 0 ==> ({
                let base = self.stream_model().start;
                let data = self.stream_model().range(base, self.position());
                match r {
                    Some(at) => occurs_at(data, needle@, at - base) && forall|j: int|
                        j > at - base ==> !#[trigger] occurs_at(data, needle@, j),
                    None => forall|j: int| !#[trigger] occurs_at(data, needle@, j),
                }
            }),
    {
        proof {
            use_type_invariant(self);
        }
        if needle.len() == 0 {
            return Some(self.cursor);
        }
        let tail: u64 = self.tail();
        let data = self.stream.read_range(tail, self.cursor);
        if data.len() < needle.len() {
            return None;
        }
        let mut i: usize = data.len() - needle.len() + 1;
        while i > 0
            invariant
                0 < needle@.len() <= data@.len(),
                i <= data@.len() - needle@.len() + 1,
                data@ == self.stream_model().range(self.stream_model().start, self.position()),
                tail == self.stream_model().start,
                tail + data@.len() <= u64::MAX,
                forall|j: int| j >= i ==> !#[trigger] occurs_at(data@, needle@, j),
            decreases i,
        {
            i = i - 1;
            if bytes_at(data, i, needle) {
                return Some(tail + i as u64);
            }
        }
        None
    }

    /// Scan forward from cursor for a byte sequence. Returns the absolute
    /// offset of the match start, or None. Does not move the cursor.
    pub fn find(&self, needle: &[u8]) -> (r: Option<u64>)
        ensures
            needle@.len() == 0 ==> r == Some(self.position() as u64),
            needle@.len() > 0 ==> ({
                let data = self.stream_model().range(self.position(), self.stream_model().end());
                match r {
                    Some(at) => occurs_at(data, needle@, at - self.position()) && forall|j: int|
                        j < at - self.position() ==> !#[trigger] occurs_at(data, needle@, j),
                    None => forall|j: int| !#[trigger] occurs_at(data, needle@, j),
                }
            }),
    {
        proof {
            use_type_invariant(self);
        }
        if needle.len() == 0 {
            return Some(self.cursor);
        }
        let data = self.stream.read_from(self.cursor);
        if data.len() < needle.len() {
            return None;
        }
        let last: usize = data.len() - needle.len();
        let cursor: u64 = self.cursor;
        let total: usize = data.len();
        let mut i: usize = 0;
        while i <= last
            invariant
                0 < needle@.len() <= data@.len(),
                total == data@.len(),
                last == data@.len() - needle@.len(),
                i <= last + 1,
                data@ == self.stream_model().range(self.position(), self.stream_model().end()),
                cursor == self.position(),
                cursor + data@.len() <= u64::MAX,
                forall|j: int| j < i ==> !#[trigger] occurs_at(data@, needle@, j),
            decreases last + 1 - i,
        {
            if bytes_at(data, i, needle) {
                return Some(cursor + i as u64);
            }
            i = i + 1;
        }
        None
    }
}

/// Whether `needle` stands in `data` at index `i`.
fn bytes_at(data: &[u8], i: usize, needle: &[u8]) -> (r: bool)
    requires
        i + needle@.len() <= data@.len(),
    ensures
        r == occurs_at(data@, needle@, i as int),
{
    let total: usize = data.len();
    let mut k: usize = 0;
    while k < needle.len()
        invariant
            k <= needle@.len(),
            total == data@.len(),
            i + needle@.len() <= data@.len(),
            forall|j: int| 0 <= j < k ==> data@[i + j] == needle@[j],
        decreases needle@.len() - k,
    {
        if data[i + k] != needle[k] {
            assert(data@.subrange(i as int, i + needle@.len())[k as int] != needle@[k as int]);
            return false;
        }
        k = k + 1;
    }
    assert(data@.subrange(i as int, i + needle@.len()) =~= needle@);
    true
}

/// Reading `n` bytes and then reading `n` bytes back gives the same bytes and
/// the starting position, where that many bytes are ahead.
pub proof fn read_then_read_back(m: StreamModel, cursor: int, n: int)
    requires
        m.start <= cursor,
        0 <= n,
        cursor + n <= m.end(),
    ensures
        m.range(m.clamp(cursor + n) - n, m.clamp(cursor + n)) == m.range(cursor, cursor + n),
        m.clamp(m.clamp(cursor + n) - n) == cursor,
{
}

/// A read that is split in two gives the bytes of the whole.
pub proof fn reads_concatenate(m: StreamModel, cursor: int, a: int, b: int)
    requires
        m.start <= cursor <= m.end(),
        0 <= a,
        0 <= b,
    ensures
        m.range(cursor, cursor + a) + m.range(m.clamp(cursor + a), m.clamp(cursor + a) + b)
            == m.range(cursor, cursor + a + b),
{
    assert(m.range(cursor, cursor + a) + m.range(m.clamp(cursor + a), m.clamp(cursor + a) + b)
        =~= m.range(cursor, cursor + a + b));
}

/// Within the capacity nothing is evicted; beyond it, everything before the safe
/// boundary is.
pub proof fn capacity_evicts_up_to_the_boundary(m: StreamModel, data: Seq<u8>)
    ensures
        m.bytes.len() + data.len() <= m.limit ==> m.appended(data).start == m.start && m.appended(
            data,
        ).bytes == m.bytes + data,
        m.bytes.len() + data.len() > m.limit && m.start <= m.safe <= m.end() + data.len()
            ==> m.appended(data).start == m.safe,
{
    assert((m.bytes + data).subrange(0, (m.bytes + data).len() as int) =~= m.bytes + data);
}

/// A range holds the retained bytes of it, each at its own offset.
pub proof fn range_is_by_offset(m: StreamModel, from: int, to: int, offset: int)
    requires
        m.start <= from <= offset < to <= m.end(),
    ensures
        m.range(from, to).len() == to - from,
        m.range(from, to)[offset - from] == m.byte_at(offset),
        m.clamp(offset) == offset,
        m.clamp(m.start - 1) == m.start,
        m.clamp(m.end() + 1) == m.end(),
{
}

} // verus!
