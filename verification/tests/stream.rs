//! The raw byte stream and its readers.

use tmux_mcp::stream::RawStream;

// --- RawStream basics ---

#[test]
fn new_stream_is_empty() {
    let s = RawStream::new();
    assert!(s.is_empty());
    assert_eq!(s.len(), 0);
    assert_eq!(s.head(), 0);
    assert_eq!(s.tail(), 0);
}

#[test]
fn append_updates_head() {
    let mut s = RawStream::new();
    s.append(b"hello");
    assert_eq!(s.len(), 5);
    assert_eq!(s.head(), 5);
    assert_eq!(s.tail(), 0);
}

#[test]
fn append_empty_is_noop() {
    let mut s = RawStream::new();
    s.append(b"");
    assert!(s.is_empty());
}

#[test]
fn multiple_appends() {
    let mut s = RawStream::new();
    s.append(b"aaa");
    s.append(b"bbb");
    s.append(b"ccc");
    assert_eq!(s.len(), 9);
    assert_eq!(s.head(), 9);
}

#[test]
fn safe_boundary_only_advances() {
    let mut s = RawStream::new();
    s.append(b"hello");
    s.mark_safe_boundary(3);
    s.mark_safe_boundary(1); // ignored
    assert_eq!(s.safe_evict_offset(), 3);
}

#[test]
fn compaction_on_overflow() {
    let mut s = RawStream::with_capacity(10);
    s.append(b"01234");
    s.mark_safe_boundary(3);
    s.append(b"56789ab"); // 12 > 10, compact evicts 0..3
    assert_eq!(s.tail(), 3);
    assert_eq!(s.head(), 12);
}

#[test]
fn no_compaction_without_safe_boundary() {
    let mut s = RawStream::with_capacity(10);
    s.append(b"0123456789abcdef"); // 16 > 10, but safe_evict=0
    assert_eq!(s.tail(), 0);
    assert_eq!(s.len(), 16);
}

#[test]
fn sequential_compactions() {
    let mut s = RawStream::with_capacity(8);
    s.append(b"aaaa");
    s.mark_safe_boundary(2);
    s.append(b"bbbbbb"); // 10>8 → evict 0..2
    assert_eq!(s.tail(), 2);

    s.mark_safe_boundary(6);
    s.append(b"cc"); // 10>8 → evict 2..6
    assert_eq!(s.tail(), 6);
}

#[test]
fn total_written_tracks_all_bytes() {
    let mut s = RawStream::with_capacity(10);
    s.append(b"12345");
    s.mark_safe_boundary(5);
    s.append(b"67890abcde");
    assert_eq!(s.total_written(), 15);
}

// --- StreamReader: forward operations ---

#[test]
fn reader_peek_and_advance() {
    let mut s = RawStream::new();
    s.append(b"abcdef");

    let mut r = s.reader(0);
    assert_eq!(r.peek(3), b"abc");
    assert_eq!(r.cursor(), 0); // peek doesn't move
    r.advance(3);
    assert_eq!(r.cursor(), 3);
    assert_eq!(r.peek(3), b"def");
}

#[test]
fn reader_read_advances() {
    let mut s = RawStream::new();
    s.append(b"abcdef");

    let mut r = s.reader(0);
    assert_eq!(r.read(3), b"abc");
    assert_eq!(r.cursor(), 3);
    assert_eq!(r.read(3), b"def");
    assert_eq!(r.cursor(), 6);
    assert!(r.at_end());
}

#[test]
fn reader_read_all() {
    let mut s = RawStream::new();
    s.append(b"hello");

    let mut r = s.reader(2);
    assert_eq!(r.read_all(), b"llo");
    assert!(r.at_end());
}

#[test]
fn reader_peek_all() {
    let mut s = RawStream::new();
    s.append(b"abcdef");

    let r = s.reader(3);
    assert_eq!(r.peek_all(), b"def");
    assert_eq!(r.cursor(), 3); // unchanged
}

#[test]
fn reader_remaining_and_preceding() {
    let mut s = RawStream::new();
    s.append(b"abcdef");

    let r = s.reader(2);
    assert_eq!(r.remaining(), 4);
    assert_eq!(r.preceding(), 2);
}

#[test]
fn reader_at_end_and_at_start() {
    let mut s = RawStream::new();
    s.append(b"hello");

    let r = s.reader_at_tail();
    assert!(r.at_start());
    assert!(!r.at_end());

    let r = s.reader_at_head();
    assert!(r.at_end());
    assert!(!r.at_start());
}

#[test]
fn reader_advance_clamps_to_head() {
    let mut s = RawStream::new();
    s.append(b"hello");

    let mut r = s.reader(3);
    r.advance(100);
    assert_eq!(r.cursor(), 5);
    assert!(r.at_end());
}

#[test]
fn reader_read_past_end() {
    let mut s = RawStream::new();
    s.append(b"ab");

    let mut r = s.reader(0);
    assert_eq!(r.read(10), b"ab");
    assert_eq!(r.read(10), b"");
}

// --- StreamReader: backward operations ---

#[test]
fn reader_peek_back() {
    let mut s = RawStream::new();
    s.append(b"abcdef");

    let r = s.reader(4);
    assert_eq!(r.peek_back(2), b"cd");
    assert_eq!(r.cursor(), 4); // unchanged
}

#[test]
fn reader_peek_back_all_preceding() {
    let mut s = RawStream::new();
    s.append(b"abcdef");

    let r = s.reader(4);
    assert_eq!(r.peek_back(100), b"abcd");
}

#[test]
fn reader_rewind() {
    let mut s = RawStream::new();
    s.append(b"abcdef");

    let mut r = s.reader(4);
    r.rewind(2);
    assert_eq!(r.cursor(), 2);
    assert_eq!(r.peek(4), b"cdef");
}

#[test]
fn reader_rewind_clamps_to_tail() {
    let mut s = RawStream::new();
    s.append(b"hello");

    let mut r = s.reader(2);
    r.rewind(100);
    assert_eq!(r.cursor(), 0);
    assert!(r.at_start());
}

#[test]
fn reader_read_back() {
    let mut s = RawStream::new();
    s.append(b"abcdef");

    let mut r = s.reader(4);
    assert_eq!(r.read_back(2), b"cd");
    assert_eq!(r.cursor(), 2);
    assert_eq!(r.read_back(2), b"ab");
    assert_eq!(r.cursor(), 0);
}

#[test]
fn reader_read_back_at_start() {
    let mut s = RawStream::new();
    s.append(b"hello");

    let mut r = s.reader_at_tail();
    assert_eq!(r.read_back(5), b"");
    assert_eq!(r.cursor(), 0);
}

// --- StreamReader: seek ---

#[test]
fn reader_seek_absolute() {
    let mut s = RawStream::new();
    s.append(b"abcdef");

    let mut r = s.reader(0);
    r.seek(3);
    assert_eq!(r.cursor(), 3);
    assert_eq!(r.peek(3), b"def");
}

#[test]
fn reader_seek_clamps_to_range() {
    let mut s = RawStream::with_capacity(10);
    s.append(b"hello");
    s.mark_safe_boundary(2);
    s.append(b"worldworld"); // compact evicts 0..2
    // tail=2, head=15

    let mut r = s.reader(5);
    r.seek(0); // before tail → clamp to tail
    assert_eq!(r.cursor(), 2);

    r.seek(1000); // past head → clamp to head
    assert_eq!(r.cursor(), 15);
}

#[test]
fn reader_seek_to_tail_and_head() {
    let mut s = RawStream::new();
    s.append(b"abcdef");

    let mut r = s.reader(3);
    r.seek_to_tail();
    assert_eq!(r.cursor(), 0);

    r.seek_to_head();
    assert_eq!(r.cursor(), 6);
}

// --- StreamReader: slice ---

#[test]
fn reader_slice() {
    let mut s = RawStream::new();
    s.append(b"abcdef");

    let r = s.reader(0);
    assert_eq!(r.slice(1, 4), b"bcd");
}

#[test]
fn reader_slice_clamps_to_bounds() {
    let mut s = RawStream::new();
    s.append(b"abcdef");

    let r = s.reader(0);
    assert_eq!(r.slice(0, 100), b"abcdef"); // to > head → clamp
    assert_eq!(r.slice(4, 2), b""); // from > to → empty
}

// --- StreamReader: find / rfind ---

#[test]
fn reader_find_forward() {
    let mut s = RawStream::new();
    s.append(b"hello world hello");

    let r = s.reader(0);
    assert_eq!(r.find(b"world"), Some(6));
    assert_eq!(r.cursor(), 0); // find doesn't move cursor
}

#[test]
fn reader_find_from_cursor() {
    let mut s = RawStream::new();
    s.append(b"aaa bbb aaa");

    let r = s.reader(4);
    // Search starts from cursor position
    assert_eq!(r.find(b"aaa"), Some(8));
}

#[test]
fn reader_find_not_found() {
    let mut s = RawStream::new();
    s.append(b"hello world");

    let r = s.reader(0);
    assert_eq!(r.find(b"xyz"), None);
}

#[test]
fn reader_find_empty_needle() {
    let mut s = RawStream::new();
    s.append(b"hello");

    let r = s.reader(3);
    assert_eq!(r.find(b""), Some(3));
}

#[test]
fn reader_rfind_backward() {
    let mut s = RawStream::new();
    s.append(b"aaa bbb aaa bbb");

    let r = s.reader(15); // at head
    assert_eq!(r.rfind(b"aaa"), Some(8)); // finds last occurrence before cursor
}

#[test]
fn reader_rfind_from_middle() {
    let mut s = RawStream::new();
    s.append(b"aaa bbb aaa bbb");

    let r = s.reader(7); // between the two "aaa"
    assert_eq!(r.rfind(b"aaa"), Some(0)); // only first one is before cursor
}

#[test]
fn reader_rfind_not_found() {
    let mut s = RawStream::new();
    s.append(b"hello world");

    let r = s.reader(11);
    assert_eq!(r.rfind(b"xyz"), None);
}

#[test]
fn reader_rfind_empty_needle() {
    let mut s = RawStream::new();
    s.append(b"hello");

    let r = s.reader(3);
    assert_eq!(r.rfind(b""), Some(3));
}

#[test]
fn reader_rfind_at_start() {
    let mut s = RawStream::new();
    s.append(b"hello");

    let r = s.reader(0);
    assert_eq!(r.rfind(b"hello"), None); // cursor at 0, nothing before
}

// --- StreamReader: after compaction ---

#[test]
fn reader_after_compaction() {
    let mut s = RawStream::with_capacity(10);
    s.append(b"aaaa"); // 0..4
    s.append(b"bbbb"); // 4..8
    s.mark_safe_boundary(4);
    s.append(b"cccccccc"); // 8..16, triggers compaction of 0..4

    let mut r = s.reader_at_tail();
    assert_eq!(r.cursor(), 4);
    assert_eq!(r.read(4), b"bbbb");
    assert_eq!(r.read(8), b"cccccccc");
    assert!(r.at_end());
}

#[test]
fn reader_cursor_clamped_after_eviction() {
    // If a cursor offset was evicted, creating a reader clamps to tail
    let mut s = RawStream::with_capacity(10);
    s.append(b"01234");
    s.mark_safe_boundary(4);
    s.append(b"56789abcde"); // compact evicts 0..4

    let r = s.reader(2); // offset 2 was evicted → clamped to tail=4
    assert_eq!(r.cursor(), 4);
}

// --- StreamReader: mode-switch reverse scan ---

#[test]
fn reverse_scan_for_prompt_anchor() {
    // Simulate: pane was in Raw mode, accumulated NOS output.
    // Mode switches to Prompt. New parser reverses looking for
    // "Router#" to find where to start parsing.
    let mut s = RawStream::new();
    s.append(b"some earlier output\n");
    s.append(b"Router#show interfaces\n");
    s.append(b"GigabitEthernet0/0 is up\n");
    s.append(b"  Internet address is 10.0.0.1/24\n");
    s.append(b"Router#");

    let mut r = s.reader_at_head();
    let prompt_offset = r.rfind(b"Router#").unwrap();
    r.seek(prompt_offset);
    assert_eq!(r.peek(7), b"Router#");
    // Parser would now start parsing forward from here
    assert_eq!(r.remaining(), 7); // at the last prompt
}

#[test]
fn reverse_scan_finds_second_to_last_prompt() {
    // For structured parsing, we want the prompt BEFORE the last one
    // (the last prompt is the current idle state, the one before starts
    // the most recent command).
    let mut s = RawStream::new();
    s.append(b"Router#show version\nCisco IOS v15.2\nRouter#");

    let mut r = s.reader_at_head();
    // Find the last "Router#"
    let last = r.rfind(b"Router#").unwrap();
    // Now find the one before that
    r.seek(last); // cursor at last Router#
    r.rewind(1); // back up past the # so rfind doesn't re-find it
    let prev = r.rfind(b"Router#");
    assert_eq!(prev, Some(0));
}

#[test]
fn forward_read_after_reverse_anchor() {
    let mut s = RawStream::new();
    s.append(b"junk\nRouter>enable\nRouter#conf t\nRouter(config)#");

    let mut r = s.reader_at_head();
    // Find the most recent "Router" occurrence
    let anchor = r.rfind(b"Router").unwrap();
    r.seek(anchor);
    // Read forward to see what's there
    let rest = r.peek_all();
    assert_eq!(rest, b"Router(config)#");
}

// --- Stress ---

#[test]
fn large_append_stress() {
    let mut s = RawStream::with_capacity(1024);
    for i in 0u64..100 {
        let chunk: Vec<u8> = (0..100).map(|j| ((i * 100 + j) % 256) as u8).collect();
        s.append(&chunk);
        if i > 0 {
            s.mark_safe_boundary(i * 100);
        }
    }
    assert_eq!(s.head(), 10_000);
    assert!(s.tail() > 0);
    let r = s.reader_at_tail();
    assert_eq!(r.remaining() as u64, s.head() - s.tail());
}

#[test]
fn reader_interleaved_forward_backward() {
    let mut s = RawStream::new();
    s.append(b"abcdefghij");

    let mut r = s.reader(0);
    assert_eq!(r.read(3), b"abc"); // cursor=3
    assert_eq!(r.read(2), b"de");  // cursor=5
    r.rewind(4);                    // cursor=1
    assert_eq!(r.peek(3), b"bcd");
    r.advance(3);                   // cursor=4
    assert_eq!(r.read_back(2), b"cd"); // cursor=2
    assert_eq!(r.read(2), b"cd");  // cursor=4
}
