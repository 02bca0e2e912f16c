//! Pane processor: a headless terminal fed with a pane's bytes, and the command
//! cycle that the pane's shell reports between them.

use crate::pane::osc::{
    find_next_osc_from, marker_bytes, osc_from, written_marker_is_found, OscEvent, OscEventModel,
    OscMatch, OscMatchModel,
};
use crate::pane::osc133::{marker_step, Osc133Parser, Osc133Phase, ParserModel};
use crate::pane::state::{address_is_read, address_of, PaneState, StateModel};
use crate::text::{
    is_white_space, lossy_text, string_of, texts, trim_end, trim_end_chars,
    trim_end_is_prefix, utf8_lossy, white_space,
};
use alacritty_terminal::event::VoidListener;
use alacritty_terminal::grid::Dimensions;
use alacritty_terminal::term::{Config, Term};
use std::time::Duration;
use vstd::prelude::*;
use vstd::slice::slice_subrange;
use vte::ansi::{Processor, Timeout};

verus! {

/// Whether a synchronized update is under way. It ends when the terminal is told
/// so; no clock is looked at.
#[derive(Debug, Clone, Copy, PartialEq, Eq)]
pub struct SyncFlag {
    pub pending: bool,
}

impl Default for SyncFlag {
    fn default() -> (r: Self)
        ensures
            !r.pending,
    {
        SyncFlag { pending: false }
    }
}

impl Timeout for SyncFlag {
    fn set_timeout(&mut self, duration: Duration)
        ensures
            final(self).pending,
    {
        self.pending = true;
    }

    fn clear_timeout(&mut self)
        ensures
            !final(self).pending,
    {
        self.pending = false;
    }

    fn pending_timeout(&self) -> (r: bool)
        ensures
            r == self.pending,
    {
        self.pending
    }
}

/// A terminal without a window, and the parser that feeds it.
#[verifier::external_body]
pub struct Screen {
    term: Term<VoidListener>,
    processor: Processor<SyncFlag>,
}

/// The size of a screen.
#[derive(Debug, Clone, Copy, PartialEq, Eq)]
pub struct ScreenSize {
    pub lines: usize,
    pub columns: usize,
}

impl Dimensions for ScreenSize {
    fn total_lines(&self) -> (r: usize)
        ensures
            r == self.lines,
    {
        self.lines
    }

    fn screen_lines(&self) -> (r: usize)
        ensures
            r == self.lines,
    {
        self.lines
    }

    fn columns(&self) -> (r: usize)
        ensures
            r == self.columns,
    {
        self.columns
    }
}

/// Whether a terminal can have that size: a wide character takes two columns,
/// and a terminal's size is two 16-bit numbers.
pub open spec fn sized(lines: int, columns: int) -> bool {
    1 <= lines <= 65535 && 2 <= columns <= 65535
}

/// The number nearest to `n` from `least` to 65535.
pub open spec fn nearest(n: usize, least: usize) -> usize {
    if n < least {
        least
    } else if n > 65535 {
        65535
    } else {
        n
    }
}

/// The lines of the screen of a pane that has `lines` of them: the nearest
/// number that a terminal can have.
pub open spec fn screen_height(lines: usize) -> usize {
    nearest(lines, 1)
}

/// The columns of the screen of a pane that has `columns` of them: the nearest
/// number that a terminal can have.
pub open spec fn screen_width(columns: usize) -> usize {
    nearest(columns, 2)
}

/// The number nearest to `n` from `least` to 65535.
fn clamped(n: usize, least: usize) -> (r: usize)
    ensures
        r == nearest(n, least),
{
    if n < least {
        least
    } else if n > 65535 {
        65535
    } else {
        n
    }
}

/// The size of the screen of a pane of that size.
fn screen_size(lines: usize, columns: usize) -> (r: ScreenSize)
    ensures
        r.lines == screen_height(lines),
        r.columns == screen_width(columns),
        sized(r.lines as int, r.columns as int),
{
    ScreenSize { lines: clamped(lines, 1), columns: clamped(columns, 2) }
}

/// The visible rows of a screen, each with one character for each column.
pub uninterp spec fn screen_rows(s: Screen) -> Seq<Seq<char>>;

/// The line and the column of a screen's cursor.
pub uninterp spec fn cursor_of(s: Screen) -> (usize, usize);

/// A new screen of that size.
pub uninterp spec fn new_screen_of(lines: usize, columns: usize) -> Screen;

/// A screen once it has taken in bytes.
pub uninterp spec fn fed_screen(s: Screen, bytes: Seq<u8>) -> Screen;

/// A screen once it was given another size.
pub uninterp spec fn resized_screen(s: Screen, lines: usize, columns: usize) -> Screen;

/// Whether a screen has that many lines and columns.
pub open spec fn has_size(rows: Seq<Seq<char>>, lines: int, columns: int) -> bool {
    &&& rows.len() == lines
    &&& forall|i: int| 0 <= i < lines ==> (#[trigger] rows[i]).len() == columns
}

/// A blank screen.
pub open spec fn blank(lines: nat, columns: nat) -> Seq<Seq<char>> {
    Seq::new(lines, |i: int| Seq::new(columns, |j: int| ' '))
}

/// `alacritty_terminal::Term::new` with the default configuration, and
/// `vte::ansi::Processor::new` to feed it: a blank screen of that size with the
/// cursor at its top left.
#[verifier::external_body]
fn new_screen(size: &ScreenSize) -> (r: Screen)
    requires
        sized(size.lines as int, size.columns as int),
    ensures
        r == new_screen_of(size.lines, size.columns),
        screen_rows(r) == blank(size.lines as nat, size.columns as nat),
        cursor_of(r) == (0usize, 0usize),
{
    Screen { term: Term::new(Config::default(), size, VoidListener), processor: Processor::new() }
}

/// `vte::ansi::Processor::advance`: the terminal takes the bytes in. What they make
/// of it depends on them and on the terminal alone; the size of its screen stays.
#[verifier::external_body]
fn advance(screen: &mut Screen, bytes: &[u8])
    ensures
        *final(screen) == fed_screen(*old(screen), bytes@),
        forall|lines: int, columns: int|
            #[trigger] has_size(screen_rows(*old(screen)), lines, columns) ==> has_size(
                screen_rows(*final(screen)),
                lines,
                columns,
            ),
{
    screen.processor.advance(&mut screen.term, bytes);
}

/// `alacritty_terminal::Term::resize`: the screen has the new size. How its rows are
/// folded into it depends on the screen and the size alone.
#[verifier::external_body]
fn resize_screen(screen: &mut Screen, size: ScreenSize)
    requires
        sized(size.lines as int, size.columns as int),
    ensures
        *final(screen) == resized_screen(*old(screen), size.lines, size.columns),
        has_size(screen_rows(*final(screen)), size.lines as int, size.columns as int),
{
    screen.term.resize(size);
}

/// `Grid::screen_lines`: the number of rows.
#[verifier::external_body]
fn line_count(screen: &Screen) -> (r: usize)
    ensures
        r == screen_rows(*screen).len(),
{
    screen.term.grid().screen_lines()
}

/// The row of the grid at an index: the character of each of its cells.
#[verifier::external_body]
fn row_chars(screen: &Screen, line: usize) -> (r: Vec<char>)
    requires
        line < screen_rows(*screen).len(),
    ensures
        r@ == screen_rows(*screen)[line as int],
{
    let row = &screen.term.grid()[alacritty_terminal::index::Line(line as i32)];
    row.into_iter().map(|cell| cell.c).collect()
}

/// The place of the grid's cursor.
#[verifier::external_body]
fn cursor_point(screen: &Screen) -> (r: (usize, usize))
    ensures
        r == cursor_of(*screen),
{
    let point = screen.term.grid().cursor.point;
    (point.line.0 as usize, point.column.0)
}

/// What a pane's bytes have made of its command cycle, its state and its screen.
pub ghost struct TrackModel {
    pub parser: ParserModel,
    pub state: StateModel,
    pub screen: Screen,
}

impl TrackModel {
    /// Text between two sequences goes to the screen and is captured.
    pub open spec fn text(self, bytes: Seq<u8>) -> TrackModel {
        if bytes.len() == 0 {
            self
        } else {
            TrackModel {
                parser: ParserModel {
                    capture: self.parser.capture + lossy_text(bytes),
                    ..self.parser
                },
                screen: fed_screen(self.screen, bytes),
                ..self
            }
        }
    }

    /// A sequence moves the command cycle on or tells where the shell is. Input
    /// starts where the cursor stands.
    pub open spec fn event(self, e: OscEventModel) -> TrackModel {
        match e {
            OscEventModel::Osc133 { marker, param } => {
                let (parser, state) = marker_step(self.parser, self.state, marker, param);
                let input_start = if marker == 66 {
                    Some(cursor_of(self.screen))
                } else {
                    state.input_start
                };
                TrackModel { parser, state: StateModel { input_start, ..state }, ..self }
            },
            OscEventModel::Osc7 { uri } => match address_of(uri) {
                Some(a) => TrackModel {
                    state: StateModel { user: a.user, hostname: a.host, cwd: a.path, ..self.state },
                    ..self
                },
                None => self,
            },
            OscEventModel::Osc9 { .. } => self,
        }
    }

    /// The same at another time.
    pub open spec fn at_time(self, now: u64) -> TrackModel {
        TrackModel { state: StateModel { now: now as int, ..self.state }, ..self }
    }

    /// The same when bytes have come in.
    pub open spec fn data_seen(self) -> TrackModel {
        TrackModel {
            state: StateModel { last_data: Some(self.state.now as u64), ..self.state },
            ..self
        }
    }

    /// A chunk of bytes, split at the sequences in it.
    pub open spec fn chunk(self, b: Seq<u8>) -> TrackModel
        decreases b.len(),
    {
        match osc_from(b, 0) {
            Some(m) => if 0 <= m.start < m.end <= b.len() {
                self.text(b.subrange(0, m.start)).event(m.event).chunk(
                    b.subrange(m.end, b.len() as int),
                )
            } else {
                self
            },
            None => self.text(b),
        }
    }
}

/// The sequences in a chunk, in order, with their places when the chunk starts
/// at `base`.
pub open spec fn chunk_events(b: Seq<u8>, base: int) -> Seq<OscMatchModel>
    decreases b.len(),
{
    match osc_from(b, 0) {
        Some(m) => if 0 <= m.start < m.end <= b.len() {
            seq![OscMatchModel { start: base + m.start, end: base + m.end, event: m.event }]
                + chunk_events(b.subrange(m.end, b.len() as int), base + m.end)
        } else {
            Seq::empty()
        },
        None => Seq::empty(),
    }
}

/// Matches, mathematically.
pub open spec fn match_views(v: Seq<OscMatch>) -> Seq<OscMatchModel> {
    v.map_values(|m: OscMatch| m@)
}

/// A screen and the command cycle of the shell in it.
pub struct PaneProcessor {
    /// What is known of the pane.
    pub state: PaneState,
    /// The command cycle.
    pub osc133: Osc133Parser,
    /// The screen.
    pub screen: Screen,
    /// The size of the pane. The screen has it too, as far as a terminal can.
    pub size: ScreenSize,
}

impl PaneProcessor {
    /// The visible rows.
    pub open spec fn rows(&self) -> Seq<Seq<char>> {
        screen_rows(self.screen)
    }

    /// The line and the column of the cursor.
    pub open spec fn cursor(&self) -> (usize, usize) {
        cursor_of(self.screen)
    }

    /// The number of lines.
    pub open spec fn lines(&self) -> int {
        self.size.lines as int
    }

    /// The number of columns.
    pub open spec fn width(&self) -> int {
        self.size.columns as int
    }

    /// The screen has the pane's size, or the nearest that a terminal can have.
    pub open spec fn valid(&self) -> bool {
        has_size(
            self.rows(),
            screen_height(self.size.lines) as int,
            screen_width(self.size.columns) as int,
        )
    }

    /// What the bytes have made of it.
    pub open spec fn track(&self) -> TrackModel {
        TrackModel { parser: self.osc133@, state: self.state@, screen: self.screen }
    }

    /// A pane of that size with a blank screen, of which nothing is known.
    pub fn new(lines: usize, columns: usize) -> (r: Self)
        ensures
            r.valid(),
            r.lines() == lines,
            r.width() == columns,
            r.rows() == blank(screen_height(lines) as nat, screen_width(columns) as nat),
            r.cursor() == (0usize, 0usize),
            r.state@ == StateModel::fresh(),
            r.osc133@ == ParserModel::fresh(),
            r.screen == new_screen_of(screen_height(lines), screen_width(columns)),
    {
        Self {
            state: PaneState::new(),
            osc133: Osc133Parser::new(),
            screen: new_screen(&screen_size(lines, columns)),
            size: ScreenSize { lines, columns },
        }
    }

    /// Give the screen text and capture it.
    fn feed(&mut self, bytes: &[u8])
        requires
            old(self).valid(),
            bytes@.len() > 0,
        ensures
            final(self).valid(),
            final(self).size == old(self).size,
            final(self).track() == old(self).track().text(bytes@),
            final(self).state == old(self).state,
    {
        advance(&mut self.screen, bytes);
        let text = utf8_lossy(bytes);
        self.osc133.append_output(text.as_str());
    }

    /// Take in what a sequence says, with the screen as it stands before it.
    fn handle_event(&mut self, event: &OscEvent)
        requires
            old(self).valid(),
            old(self).state@.seq_counter + 2 <= u64::MAX,
            old(self).state@.completion_seq < u64::MAX,
        ensures
            final(self).track() == old(self).track().event(event@),
            final(self).rows() == old(self).rows(),
            final(self).size == old(self).size,
            final(self).state@.seq_counter <= old(self).state@.seq_counter + 2,
            final(self).state@.completion_seq <= old(self).state@.completion_seq + 1,
    {
        match event {
            OscEvent::Osc133 { marker, param } => {
                let text = match param {
                    Some(t) => Some(t.as_str()),
                    None => None,
                };
                self.osc133.handle_marker(*marker, text, &mut self.state);
                if *marker == 66 {
                    self.state.input_start = Some(cursor_point(&self.screen));
                }
            },
            OscEvent::Osc7 { uri } => {
                self.state.update_cwd_from_osc7(uri.as_str());
            },
            OscEvent::Osc9 { .. } => {},
        }
        assert(self.track().state =~= old(self).track().event(event@).state);
    }

    /// Take in a chunk of terminal bytes.
    ///
    /// The chunk is split at the sequences that are intercepted; each is handled
    /// when the screen stands at what came before it. Returns them in order.
    pub fn process_chunk(&mut self, bytes: &[u8]) -> (r: Vec<OscMatch>)
        requires
            old(self).valid(),
            old(self).state@.seq_counter + bytes@.len() <= u64::MAX,
            old(self).state@.completion_seq + bytes@.len() <= u64::MAX,
        ensures
            final(self).valid(),
            final(self).lines() == old(self).lines(),
            final(self).width() == old(self).width(),
            match_views(r@) == chunk_events(bytes@, 0),
            final(self).track() == old(self).track().data_seen().chunk(bytes@),
    {
        let n: usize = bytes.len();
        let mut events: Vec<OscMatch> = Vec::new();
        let mut pos: usize = 0;
        let ghost start = self.track().data_seen();
        self.state.last_data = Some(self.state.now);
        assert(bytes@.subrange(0, n as int) =~= bytes@);
        assert(match_views(events@) + chunk_events(bytes@, 0) =~= chunk_events(bytes@, 0));
        assert(self.track() == start);
        while pos < n
            invariant
                pos <= n == bytes@.len(),
                self.valid(),
                self.size == old(self).size,
                self.state@.seq_counter + (n - pos) <= u64::MAX,
                self.state@.completion_seq + (n - pos) <= u64::MAX,
                self.track().chunk(bytes@.subrange(pos as int, n as int)) == start.chunk(bytes@),
                match_views(events@) + chunk_events(bytes@.subrange(pos as int, n as int), pos as int)
                    == chunk_events(bytes@, 0),
            decreases n - pos,
        {
            let ghost tail = bytes@.subrange(pos as int, n as int);
            let ghost before = match_views(events@);
            match find_next_osc_from(bytes, pos) {
                Some(m) => {
                    assert(tail.subrange(0, m.start - pos) =~= bytes@.subrange(
                        pos as int,
                        m.start as int,
                    ));
                    assert(tail.subrange(m.end - pos, tail.len() as int) =~= bytes@.subrange(
                        m.end as int,
                        n as int,
                    ));
                    if m.start > pos {
                        self.feed(slice_subrange(bytes, pos, m.start));
                    }
                    self.handle_event(&m.event);
                    let ghost view = m@;
                    pos = m.end;
                    events.push(m);
                    proof {
                        assert(match_views(events@) =~= before.push(view));
                        assert(before.push(view) + chunk_events(
                            bytes@.subrange(pos as int, n as int),
                            pos as int,
                        ) =~= before + (seq![view] + chunk_events(
                            bytes@.subrange(pos as int, n as int),
                            pos as int,
                        )));
                    }
                },
                None => {
                    self.feed(slice_subrange(bytes, pos, n));
                    pos = n;
                    proof {
                        let empty = bytes@.subrange(n as int, n as int);
                        assert(osc_from(empty, 0) is None);
                        assert(chunk_events(empty, n as int) =~= Seq::empty());
                    }
                },
            }
        }
        assert(bytes@.subrange(n as int, n as int).len() == 0);
        assert(osc_from(bytes@.subrange(n as int, n as int), 0) is None);
        assert(match_views(events@) =~= chunk_events(bytes@, 0));
        events
    }

    /// Change the size, and that of the screen with it.
    pub fn resize(&mut self, lines: usize, columns: usize)
        ensures
            final(self).valid(),
            final(self).lines() == lines,
            final(self).width() == columns,
            *final(self) == (PaneProcessor {
                screen: resized_screen(
                    old(self).screen,
                    screen_height(lines),
                    screen_width(columns),
                ),
                size: ScreenSize { lines, columns },
                ..*old(self)
            }),
    {
        resize_screen(&mut self.screen, screen_size(lines, columns));
        self.size = ScreenSize { lines, columns };
    }

    /// The text of a line, the topmost being 0, without trailing white space;
    /// empty below the screen.
    pub fn screen_line_text(&self, line: usize) -> (r: String)
        ensures
            r@ == line_text(self.rows(), line as int),
    {
        if line >= line_count(&self.screen) {
            return String::new();
        }
        let row = row_chars(&self.screen, line);
        string_of(trim_end_chars(row.as_slice()))
    }

    /// The text of the line that the cursor stands on.
    pub fn cursor_line_text(&self) -> (r: String)
        ensures
            r@ == line_text(self.rows(), self.cursor().0 as int),
    {
        let (line, _) = cursor_point(&self.screen);
        self.screen_line_text(line)
    }

    /// The line and the column of the cursor.
    pub fn cursor_position(&self) -> (r: (usize, usize))
        ensures
            r == self.cursor(),
    {
        cursor_point(&self.screen)
    }

    /// The number of visible lines.
    pub fn screen_lines(&self) -> (r: usize)
        ensures
            r == self.lines(),
    {
        self.size.lines
    }

    /// The number of columns.
    pub fn columns(&self) -> (r: usize)
        ensures
            r == self.width(),
    {
        self.size.columns
    }

    /// The text of all visible lines.
    pub fn screen_text(&self) -> (r: Vec<String>)
        ensures
            texts(r@) == screen_texts(self.rows()),
    {
        let n: usize = line_count(&self.screen);
        let mut out: Vec<String> = Vec::new();
        let mut i: usize = 0;
        while i < n
            invariant
                i <= n == self.rows().len(),
                out@.len() == i,
                forall|k: int| 0 <= k < i ==> (#[trigger] out@[k])@ == line_text(self.rows(), k),
            decreases n - i,
        {
            out.push(self.screen_line_text(i));
            i = i + 1;
        }
        assert(texts(out@) =~= screen_texts(self.rows()));
        out
    }

    /// What is known of the pane.
    pub fn state(&self) -> (r: &PaneState)
        ensures
            *r == self.state,
    {
        &self.state
    }

    /// What is known of the pane, to be changed.
    pub fn state_mut(&mut self) -> (r: &mut PaneState)
        ensures
            *r == old(self).state,
            *final(self) == (PaneProcessor { state: *final(r), ..*old(self) }),
    {
        &mut self.state
    }

    /// The phase of the command cycle.
    pub fn osc133_phase(&self) -> (r: &Osc133Phase)
        ensures
            r@ == self.osc133@.phase,
    {
        self.osc133.phase()
    }

    /// Whether something has been typed at the prompt and not been run: input is
    /// open, and there is text from where it started to the cursor's line.
    pub fn has_input_content(&self) -> (r: bool)
        ensures
            r == (self.osc133@.phase is Input && (self.state@.input_start matches Some(from)
                && typed(self.rows(), from, self.cursor().0 as int))),
    {
        let open = match self.osc133.phase() {
            Osc133Phase::Input => true,
            _ => false,
        };
        match self.state.input_start {
            Some((line, column)) => open && self.has_text_from(line, column),
            None => false,
        }
    }

    /// Whether there is text from a place to the cursor's line.
    fn has_text_from(&self, line: usize, column: usize) -> (r: bool)
        ensures
            r == typed(self.rows(), (line, column), self.cursor().0 as int),
    {
        let n: usize = line_count(&self.screen);
        let (last, _) = cursor_point(&self.screen);
        let mut l: usize = line;
        while l < n && l <= last
            invariant
                n == self.rows().len(),
                last == self.cursor().0,
                line <= l,
                forall|i: int, j: int|
                    line <= i < l && #[trigger] text_at(self.rows(), i, j) ==> i == line && j
                        < column,
            decreases n - l,
        {
            let row = row_chars(&self.screen, l);
            let mut c: usize = if l == line {
                column
            } else {
                0
            };
            let ghost from = c;
            while c < row.len()
                invariant
                    from <= c,
                    l < self.rows().len(),
                    row@ == self.rows()[l as int],
                    line <= l <= last == self.cursor().0,
                    from == (if l == line {
                        column
                    } else {
                        0
                    }),
                    forall|j: int| from <= j < c ==> !(#[trigger] text_at(self.rows(), l as int, j)),
                decreases row.len() - c,
            {
                if !is_white_space(row[c]) {
                    assert(text_at(self.rows(), l as int, c as int));
                    return true;
                }
                c = c + 1;
            }
            l = l + 1;
        }
        false
    }
}

/// Whether there is a character other than white space at a place of the screen.
pub open spec fn text_at(rows: Seq<Seq<char>>, line: int, column: int) -> bool {
    0 <= line < rows.len() && 0 <= column < rows[line].len() && !white_space(rows[line][column])
}

/// Whether there is text on the screen from a place to a last line.
pub open spec fn typed(rows: Seq<Seq<char>>, from: (usize, usize), last: int) -> bool {
    exists|i: int, j: int| #[trigger]
        text_at(rows, i, j) && from.0 <= i <= last && (i == from.0 ==> from.1 <= j)
}

/// The text of a line without trailing white space; empty below the screen.
pub open spec fn line_text(rows: Seq<Seq<char>>, line: int) -> Seq<char> {
    if 0 <= line < rows.len() {
        trim_end(rows[line])
    } else {
        Seq::empty()
    }
}

/// The text of all lines.
pub open spec fn screen_texts(rows: Seq<Seq<char>>) -> Seq<Seq<char>> {
    Seq::new(rows.len(), |i: int| line_text(rows, i))
}

/// Number of bytes in the sequences.
pub open spec fn event_bytes(events: Seq<OscMatchModel>) -> int
    decreases events.len(),
{
    if events.len() == 0 {
        0
    } else {
        events[0].end - events[0].start + event_bytes(events.subrange(1, events.len() as int))
    }
}

/// The sequences of a chunk lie in it in order and do not overlap.
pub proof fn events_are_ordered(b: Seq<u8>, base: int)
    ensures
        ({
            let events = chunk_events(b, base);
            &&& forall|i: int|
                0 <= i < events.len() ==> base <= (#[trigger] events[i]).start < events[i].end
                    <= base + b.len()
            &&& forall|i: int, j: int|
                0 <= i < j < events.len() ==> (#[trigger] events[i]).end <= (
                #[trigger] events[j]).start
        }),
    decreases b.len(),
{
    if let Some(m) = osc_from(b, 0) {
        if 0 <= m.start < m.end <= b.len() {
            let rest = b.subrange(m.end, b.len() as int);
            events_are_ordered(rest, base + m.end);
            let later = chunk_events(rest, base + m.end);
            let events = chunk_events(b, base);
            assert(forall|i: int| 1 <= i < events.len() ==> #[trigger] events[i] == later[i - 1]);
        }
    }
}

/// The bytes of a chunk outside its sequences.
pub open spec fn chunk_text(b: Seq<u8>) -> Seq<u8>
    decreases b.len(),
{
    match osc_from(b, 0) {
        Some(m) => if 0 <= m.start < m.end <= b.len() {
            b.subrange(0, m.start) + chunk_text(b.subrange(m.end, b.len() as int))
        } else {
            b
        },
        None => b,
    }
}

/// No byte is lost: what of a chunk goes to the screen and the sequences taken out
/// of it are together as long as the chunk.
pub proof fn chunk_bytes_are_kept(b: Seq<u8>, base: int)
    ensures
        chunk_text(b).len() + event_bytes(chunk_events(b, base)) == b.len(),
    decreases b.len(),
{
    match osc_from(b, 0) {
        Some(x) => {
            super::osc::match_is_delimited(b, 0);
            let rest = b.subrange(x.end, b.len() as int);
            chunk_bytes_are_kept(rest, base + x.end);
            let events = chunk_events(b, base);
            assert(events.subrange(1, events.len() as int) =~= chunk_events(rest, base + x.end));
        },
        None => {},
    }
}

/// A chunk without a sequence goes to the screen as it is and changes nothing
/// that is known of the pane.
pub proof fn plain_chunk_is_text(m: TrackModel, b: Seq<u8>)
    requires
        osc_from(b, 0) is None,
        b.len() > 0,
    ensures
        chunk_events(b, 0).len() == 0,
        chunk_text(b) == b,
        m.chunk(b).screen == fed_screen(m.screen, b),
        m.chunk(b).state == m.state,
        m.chunk(b).parser.phase == m.parser.phase,
{
}

/// A chunk leaves the history bounded and newest first.
pub proof fn chunk_keeps_history(m: TrackModel, b: Seq<u8>)
    requires
        m.state.history_ordered(),
    ensures
        m.chunk(b).state.history_ordered(),
    decreases b.len(),
{
    if let Some(x) = osc_from(b, 0) {
        if 0 <= x.start < x.end <= b.len() {
            let text = m.text(b.subrange(0, x.start));
            if let OscEventModel::Osc133 { marker, param } = x.event {
                super::osc133::markers_keep_history(text.parser, text.state, marker, param);
            }
            let next = text.event(x.event);
            assert(next.state.history_ordered());
            chunk_keeps_history(next, b.subrange(x.end, b.len() as int));
        }
    }
}

/// The text before a marker that a shell writes goes to the screen and is captured
/// first, then the command cycle moves on, and then the rest of the chunk follows.
/// At the start of the input the place of the cursor is noted.
pub proof fn marker_parts_a_chunk(
    m: TrackModel,
    before: Seq<u8>,
    marker: u8,
    bel: bool,
    after: Seq<u8>,
)
    requires
        0x41 <= marker <= 0x5a,
        before.len() > 0,
        forall|i: int| 0 <= i < before.len() ==> #[trigger] before[i] != 0x1b,
    ensures
        ({
            let screen = fed_screen(m.screen, before);
            let parser = ParserModel {
                capture: m.parser.capture + lossy_text(before),
                ..m.parser
            };
            let (p, s) = marker_step(parser, m.state, marker, None);
            let next = TrackModel {
                parser: p,
                state: StateModel {
                    input_start: if marker == 'B' as u8 {
                        Some(cursor_of(screen))
                    } else {
                        s.input_start
                    },
                    ..s
                },
                screen,
            };
            m.chunk(before + marker_bytes(marker, bel) + after) == next.chunk(after)
        }),
{
    let mark = marker_bytes(marker, bel);
    let b = before + mark + after;
    written_marker_is_found(before, marker, bel, after);
    let n = before.len() as int;
    assert(mark.len() > 0);
    assert(b.subrange(0, n) =~= before);
    assert(b.subrange(n + mark.len(), b.len() as int) =~= after);
}

/// An address that the shell reports tells where it then is, and whose it is, and
/// changes nothing else; a notification changes nothing at all.
pub proof fn reported_place_is_kept(
    m: TrackModel,
    user: Option<Seq<char>>,
    host: Seq<char>,
    path: Seq<char>,
    text: Seq<char>,
)
    requires
        user matches Some(u) ==> u.len() > 0 && forall|i: int|
            0 <= i < u.len() ==> #[trigger] u[i] != '/',
        forall|i: int| 0 <= i < host.len() ==> #[trigger] host[i] != '/' && host[i] != '@',
        path.len() > 0,
        path[0] == '/',
    ensures
        ({
            let who = match user {
                Some(u) => u + seq!['@'],
                None => Seq::empty(),
            };
            let local = host.len() == 0 || host == "localhost"@ || host == "127.0.0.1"@ || host
                == "::1"@;
            let r = m.event(OscEventModel::Osc7 { uri: "file://"@ + who + host + path });
            &&& r.state.cwd == Some(path)
            &&& r.state.user == user
            &&& local ==> r.state.hostname is None
            &&& !local ==> r.state.hostname == Some(host)
            &&& r.state.commands == m.state.commands
            &&& r.state.activity == m.state.activity
            &&& r.state.last_exit_code == m.state.last_exit_code
            &&& r.parser == m.parser
            &&& r.screen == m.screen
        }),
        m.event(OscEventModel::Osc9 { text }) == m,
{
    address_is_read(user, host, path);
}

/// A line of the screen is told without the blanks behind its text, and a line that
/// is not there is empty.
pub proof fn lines_are_told_without_blanks(
    rows: Seq<Seq<char>>,
    line: int,
    text: Seq<char>,
    blanks: Seq<char>,
)
    requires
        text.len() == 0 || !white_space(text.last()),
        forall|i: int| 0 <= i < blanks.len() ==> white_space(#[trigger] blanks[i]),
    ensures
        0 <= line < rows.len() && rows[line] == text + blanks ==> line_text(rows, line) == text,
        line >= rows.len() ==> line_text(rows, line).len() == 0,
{
    let s = text + blanks;
    let n = text.len() as int;
    assert(s.subrange(0, n) =~= text);
    assert forall|i: int| n <= i < s.len() implies white_space(#[trigger] s[i]) by {
        assert(s[i] == blanks[i - n]);
    }
    if n > 0 {
        assert(s[n - 1] == text.last());
    }
    trim_end_is_prefix(s, n);
}

} // verus!
