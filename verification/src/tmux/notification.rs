//! Lines of tmux control mode: notifications and command responses.

use crate::text::{chars_of, find_char, has_prefix, index_of_char, join, joined, starts_with, str_eq, substring, texts};
use vstd::prelude::*;

verus! {

/// A notification from tmux.
#[derive(Debug, Clone, PartialEq, Eq)]
pub enum Notification {
    /// `%output %<pane_id> <escaped-data>`
    Output { pane_id: String, data: String },
    /// `%window-close @<window_id>`
    WindowClose { window_id: String },
    /// `%session-closed $<session_id>`
    SessionClose { session_id: String },
    /// `%exit [reason]`
    Exit { reason: Option<String> },
    /// Anything else.
    Other { line: String },
}

/// A notification, mathematically.
pub ghost enum NotificationModel {
    Output { pane_id: Seq<char>, data: Seq<char> },
    WindowClose { window_id: Seq<char> },
    SessionClose { session_id: Seq<char> },
    Exit { reason: Option<Seq<char>> },
    Other { line: Seq<char> },
}

impl View for Notification {
    type V = NotificationModel;

    open spec fn view(&self) -> NotificationModel {
        match *self {
            Notification::Output { pane_id, data } => NotificationModel::Output {
                pane_id: pane_id@,
                data: data@,
            },
            Notification::WindowClose { window_id } => NotificationModel::WindowClose {
                window_id: window_id@,
            },
            Notification::SessionClose { session_id } => NotificationModel::SessionClose {
                session_id: session_id@,
            },
            Notification::Exit { reason } => NotificationModel::Exit {
                reason: crate::text::opt_text(reason),
            },
            Notification::Other { line } => NotificationModel::Other { line: line@ },
        }
    }
}

/// Response to a command: what stands between `%begin` and `%end` or `%error`.
#[derive(Debug, Clone)]
pub struct CommandResponse {
    pub output: String,
    pub is_error: bool,
}

/// What a line completes: a command response or a notification.
#[derive(Debug)]
pub enum ReaderMessage {
    Response(CommandResponse),
    Notification(Notification),
}

/// A message, mathematically.
pub ghost enum MessageModel {
    Response { output: Seq<char>, is_error: bool },
    Notification(NotificationModel),
}

impl View for ReaderMessage {
    type V = MessageModel;

    open spec fn view(&self) -> MessageModel {
        match *self {
            ReaderMessage::Response(r) => MessageModel::Response {
                output: r.output@,
                is_error: r.is_error,
            },
            ReaderMessage::Notification(n) => MessageModel::Notification(n@),
        }
    }
}

/// The word of a line before its first space.
pub open spec fn first_word(line: Seq<char>) -> Seq<char> {
    line.subrange(0, index_of_char(line, ' '))
}

/// What follows the first space of a line; none where there is no space.
pub open spec fn after_space(line: Seq<char>) -> Option<Seq<char>> {
    let i = index_of_char(line, ' ');
    if i < line.len() {
        Some(line.subrange(i + 1, line.len() as int))
    } else {
        None
    }
}

/// The second word of a line; none where there is no space.
pub open spec fn second_word(line: Seq<char>) -> Option<Seq<char>> {
    match after_space(line) {
        Some(rest) => Some(first_word(rest)),
        None => None,
    }
}

/// The notification that a line is.
pub open spec fn notification_of(line: Seq<char>) -> NotificationModel {
    let output = "%output "@;
    let rest = line.subrange(output.len() as int, line.len() as int);
    let word = first_word(line);
    if has_prefix(line, output) && after_space(rest) is Some {
        NotificationModel::Output { pane_id: first_word(rest), data: after_space(rest)->0 }
    } else if word == "%window-close"@ && second_word(line) is Some {
        NotificationModel::WindowClose { window_id: second_word(line)->0 }
    } else if word == "%session-closed"@ && second_word(line) is Some {
        NotificationModel::SessionClose { session_id: second_word(line)->0 }
    } else if word == "%exit"@ {
        NotificationModel::Exit { reason: second_word(line) }
    } else {
        NotificationModel::Other { line }
    }
}

/// Whether a line is a notification even inside a response.
pub open spec fn is_known_notification(line: Seq<char>) -> bool {
    has_prefix(line, "%output "@) || has_prefix(line, "%session-changed "@) || has_prefix(
        line,
        "%session-closed "@,
    ) || has_prefix(
        line,
        "%window-add "@,
    ) || has_prefix(line, "%window-close "@) || has_prefix(line, "%window-pane-changed "@)
        || has_prefix(line, "%pane-mode-changed "@) || has_prefix(line, "%exit"@) || has_prefix(
        line,
        "%layout-change "@,
    ) || has_prefix(line, "%subscription-changed "@) || has_prefix(line, "%message "@)
}

/// What a line does to the response block that is open, if any, and what it
/// completes.
pub open spec fn line_step(line: Seq<char>, block: Option<Seq<Seq<char>>>) -> (
    Option<Seq<Seq<char>>>,
    Option<MessageModel>,
) {
    let ends = has_prefix(line, "%end "@);
    let fails = has_prefix(line, "%error "@);
    if has_prefix(line, "%begin "@) {
        (Some(Seq::empty()), None)
    } else if ends || fails {
        (
            None,
            match block {
                Some(lines) => Some(
                    MessageModel::Response { output: joined(lines, "\n"@), is_error: fails },
                ),
                None => None,
            },
        )
    } else if is_known_notification(line) || block is None {
        (block, Some(MessageModel::Notification(notification_of(line))))
    } else {
        (Some(block->0.push(line)), None)
    }
}

/// The lines of an open block.
pub open spec fn block_view(block: Option<Vec<String>>) -> Option<Seq<Seq<char>>> {
    match block {
        Some(v) => Some(texts(v@)),
        None => None,
    }
}

/// Whether a line starts with `prefix`.
fn line_starts(line: &[char], prefix: &str) -> (r: bool)
    ensures
        r == has_prefix(line@, prefix@),
{
    let p = chars_of(prefix);
    starts_with(line, p.as_slice())
}

/// Whether a line is a notification even inside a response.
fn is_notification_line(line: &[char]) -> (r: bool)
    ensures
        r == is_known_notification(line@),
{
    line_starts(line, "%output ") || line_starts(line, "%session-changed ") || line_starts(
        line,
        "%session-closed ",
    ) || line_starts(
        line,
        "%window-add ",
    ) || line_starts(line, "%window-close ") || line_starts(line, "%window-pane-changed ")
        || line_starts(line, "%pane-mode-changed ") || line_starts(line, "%exit") || line_starts(
        line,
        "%layout-change ",
    ) || line_starts(line, "%subscription-changed ") || line_starts(line, "%message ")
}

/// The word before the first space at or after `from`, and where it ends.
fn word_at(line: &[char], from: usize) -> (r: (String, usize))
    requires
        from <= line@.len(),
    ensures
        ({
            let rest = line@.subrange(from as int, line@.len() as int);
            r.0@ == first_word(rest) && r.1 == from + index_of_char(rest, ' ') && from <= r.1
                <= line@.len()
        }),
{
    let rest = vstd::slice::slice_subrange(line, from, line.len());
    let i: usize = find_char(rest, ' ');
    (substring(rest, 0, i), from + i)
}

/// Parse a notification line.
pub fn parse_notification(line: &str) -> (r: Notification)
    ensures
        r@ == notification_of(line@),
{
    let chars = chars_of(line);
    let n: usize = chars.len();
    let output = chars_of("%output ");
    if starts_with(chars.as_slice(), output.as_slice()) {
        let from: usize = output.len();
        let (pane_id, end) = word_at(chars.as_slice(), from);
        let ghost rest = line@.subrange(from as int, line@.len() as int);
        if end < n {
            let data = substring(chars.as_slice(), end + 1, n);
            assert(data@ =~= rest.subrange(index_of_char(rest, ' ') + 1, rest.len() as int));
            return Notification::Output { pane_id, data };
        }
    }
    assert(line@.subrange(0, line@.len() as int) =~= line@);
    let (word, end) = word_at(chars.as_slice(), 0);
    let second: Option<String> = if end < n {
        let (w, _) = word_at(chars.as_slice(), end + 1);
        Some(w)
    } else {
        None
    };
    assert(crate::text::opt_text(second) == second_word(line@));
    if str_eq(word.as_str(), "%window-close") {
        if let Some(window_id) = second {
            return Notification::WindowClose { window_id };
        }
    } else if str_eq(word.as_str(), "%session-closed") {
        if let Some(session_id) = second {
            return Notification::SessionClose { session_id };
        }
    } else if str_eq(word.as_str(), "%exit") {
        return Notification::Exit { reason: second };
    }
    assert("%window-close"@ != "%exit"@ && "%session-closed"@ != "%exit"@ && "%window-close"@
        != "%session-closed"@) by {
        reveal_strlit("%window-close");
        reveal_strlit("%session-closed");
        reveal_strlit("%exit");
        assert("%window-close"@.len() != "%exit"@.len());
    }
    Notification::Other { line: line.to_owned() }
}

/// Parse a line of tmux control mode.
///
/// The lines between `%begin` and `%end` or `%error` make a response; they are
/// collected in `current_block`. Notifications can come in between. Returns the
/// message that the line completes, if any.
pub fn parse_line(line: &str, current_block: &mut Option<Vec<String>>) -> (r: Option<ReaderMessage>)
    ensures
        line_step(line@, block_view(*old(current_block))) == (
            block_view(*final(current_block)),
            (match r {
                Some(m) => Some(m@),
                None => None,
            }),
        ),
{
    let chars = chars_of(line);
    let s = chars.as_slice();
    if line_starts(s, "%begin ") {
        let lines: Vec<String> = Vec::new();
        assert(texts(lines@) =~= Seq::<Seq<char>>::empty());
        *current_block = Some(lines);
        return None;
    }
    let is_error = line_starts(s, "%error ");
    if line_starts(s, "%end ") || is_error {
        return match current_block.take() {
            Some(lines) => Some(
                ReaderMessage::Response(
                    CommandResponse { output: join(lines.as_slice(), "\n"), is_error },
                ),
            ),
            None => None,
        };
    }
    if !is_notification_line(s) {
        if let Some(mut lines) = current_block.take() {
            let ghost before = texts(lines@);
            lines.push(line.to_owned());
            assert(texts(lines@) =~= before.push(line@));
            *current_block = Some(lines);
            return None;
        }
    }
    Some(ReaderMessage::Notification(parse_notification(line)))
}

/// The window and the layout that a line `%layout-change @<window> <layout> ..`
/// tells; none where the line is another or lacks one of them.
pub open spec fn layout_change_of(line: Seq<char>) -> Option<(Seq<char>, Seq<char>)> {
    match after_space(line) {
        Some(rest) => match after_space(rest) {
            Some(tail) => if first_word(line) == "%layout-change"@ {
                Some((first_word(rest), first_word(tail)))
            } else {
                None
            },
            None => None,
        },
        None => None,
    }
}

/// The window and the layout that a `%layout-change` line tells.
pub fn layout_change(line: &str) -> (r: Option<(String, String)>)
    ensures
        match r {
            Some((window, layout)) => layout_change_of(line@) == Some((window@, layout@)),
            None => layout_change_of(line@) is None,
        },
{
    let chars = chars_of(line);
    let s = chars.as_slice();
    let n: usize = s.len();
    assert(line@.subrange(0, line@.len() as int) =~= line@);
    let (word, end) = word_at(s, 0);
    if end >= n {
        return None;
    }
    let (window, after) = word_at(s, end + 1);
    let ghost rest = line@.subrange(end + 1, n as int);
    if after >= n {
        return None;
    }
    let (layout, _) = word_at(s, after + 1);
    assert(rest.subrange(index_of_char(rest, ' ') + 1, rest.len() as int) =~= line@.subrange(
        after + 1,
        n as int,
    ));
    if str_eq(word.as_str(), "%layout-change") {
        Some((window, layout))
    } else {
        None
    }
}

/// Whether a line does not touch an open response: it opens or closes none, and is
/// no notification.
pub open spec fn is_response_text(line: Seq<char>) -> bool {
    !has_prefix(line, "%begin "@) && !has_prefix(line, "%end "@) && !has_prefix(line, "%error "@)
        && !is_known_notification(line)
}

/// The block that lines leave, from the block that is open before them.
pub open spec fn block_after(lines: Seq<Seq<char>>, block: Option<Seq<Seq<char>>>) -> Option<
    Seq<Seq<char>>,
>
    decreases lines.len(),
{
    if lines.len() == 0 {
        block
    } else {
        line_step(lines.last(), block_after(lines.drop_last(), block)).0
    }
}

/// A response is what stands between its first and its last line: all lines of it,
/// in order, and whether it tells of an error. Nothing of it is given out before
/// its end.
pub proof fn response_is_collected(
    begin: Seq<char>,
    lines: Seq<Seq<char>>,
    end: Seq<char>,
    before: Option<Seq<Seq<char>>>,
)
    requires
        has_prefix(begin, "%begin "@),
        forall|i: int| 0 <= i < lines.len() ==> is_response_text(#[trigger] lines[i]),
        has_prefix(end, "%end "@) || has_prefix(end, "%error "@),
    ensures
        ({
            let opened = line_step(begin, before);
            let collected = block_after(lines, opened.0);
            let closed = line_step(end, collected);
            &&& opened.1 is None
            &&& collected == Some(lines)
            &&& forall|i: int|
                0 <= i < lines.len() ==> (#[trigger] line_step(
                    lines[i],
                    block_after(lines.subrange(0, i), opened.0),
                )).1 is None
            &&& closed.0 is None
            &&& closed.1 == Some(
                MessageModel::Response {
                    output: joined(lines, "\n"@),
                    is_error: has_prefix(end, "%error "@),
                },
            )
        }),
{
    let opened = line_step(begin, before);
    assert(opened.0 == Some(Seq::<Seq<char>>::empty()));
    lines_are_collected(lines, Seq::empty());
    assert(Seq::<Seq<char>>::empty() + lines =~= lines);
    assert forall|i: int| 0 <= i < lines.len() implies (#[trigger] line_step(
        lines[i],
        block_after(lines.subrange(0, i), opened.0),
    )).1 is None by {
        let front = lines.subrange(0, i);
        assert forall|j: int| 0 <= j < front.len() implies is_response_text(#[trigger] front[j]) by {
            assert(is_response_text(lines[j]));
        }
        lines_are_collected(front, Seq::empty());
        assert(is_response_text(lines[i]));
    }
    reveal_strlit("%begin ");
    reveal_strlit("%end ");
    reveal_strlit("%error ");
    let b = "%begin "@;
    if has_prefix(end, b) {
        assert(end.subrange(0, b.len() as int)[1] == end[1]);
        assert(b[1] == 'b');
        if has_prefix(end, "%end "@) {
            assert(end.subrange(0, "%end "@.len() as int)[1] == end[1]);
            assert("%end "@[1] == 'e');
        } else {
            assert(end.subrange(0, "%error "@.len() as int)[1] == end[1]);
            assert("%error "@[1] == 'e');
        }
    }
}

/// Lines of a response are added to it.
proof fn lines_are_collected(lines: Seq<Seq<char>>, so_far: Seq<Seq<char>>)
    requires
        forall|i: int| 0 <= i < lines.len() ==> is_response_text(#[trigger] lines[i]),
    ensures
        block_after(lines, Some(so_far)) == Some(so_far + lines),
    decreases lines.len(),
{
    if lines.len() > 0 {
        let front = lines.drop_last();
        assert forall|i: int| 0 <= i < front.len() implies is_response_text(#[trigger] front[i]) by {
            assert(is_response_text(lines[i]));
        }
        lines_are_collected(front, so_far);
        assert(is_response_text(lines[lines.len() - 1]));
        assert((so_far + front).push(lines.last()) =~= so_far + lines);
    } else {
        assert(so_far + lines =~= so_far);
    }
}

/// A notification in the middle of a response is told at once, and the response
/// goes on as if it were not there. Outside a response every line is told that
/// opens or closes none.
pub proof fn notification_interrupts_nothing(line: Seq<char>, block: Option<Seq<Seq<char>>>)
    requires
        !has_prefix(line, "%begin "@) && !has_prefix(line, "%end "@) && !has_prefix(
            line,
            "%error "@,
        ),
        is_known_notification(line) || block is None,
    ensures
        line_step(line, block).0 == block,
        line_step(line, block).1 == Some(MessageModel::Notification(notification_of(line))),
{
}

/// What tmux writes of output, of a closed window, of a closed session and of its
/// own end is read as that.
pub proof fn written_notifications_are_read(id: Seq<char>, data: Seq<char>)
    requires
        !id.contains(' '),
    ensures
        notification_of("%output "@ + id + seq![' '] + data) == (NotificationModel::Output {
            pane_id: id,
            data,
        }),
        notification_of("%window-close "@ + id) == (NotificationModel::WindowClose { window_id: id }),
        notification_of("%session-closed "@ + id) == (NotificationModel::SessionClose {
            session_id: id,
        }),
        is_known_notification("%output "@ + id + seq![' '] + data),
        is_known_notification("%window-close "@ + id),
        is_known_notification("%session-closed "@ + id),
        is_known_notification("%layout-change "@ + data),
{
    reveal_strlit("%output ");
    reveal_strlit("%window-close ");
    reveal_strlit("%window-close");
    reveal_strlit("%session-closed ");
    reveal_strlit("%session-closed");
    reveal_strlit("%exit");
    reveal_strlit("%layout-change ");
    let a = "%output "@ + id + seq![' '] + data;
    assert(a.subrange(0, 8) =~= "%output "@);
    let rest = a.subrange(8, a.len() as int);
    assert(rest =~= id + seq![' '] + data);
    let n = id.len() as int;
    assert forall|j: int| 0 <= j < n implies id[j] != ' ' by {
        assert(id.contains(id[j]));
    }
    assert forall|j: int| 0 <= j < n implies rest[j] != ' ' by {
        assert(rest[j] == id[j]);
    }
    assert(rest[n] == ' ');
    crate::text::index_of_char_unique(rest, ' ', n);
    assert(rest.subrange(0, n) =~= id);
    assert(rest.subrange(n + 1, rest.len() as int) =~= data);
    two_words_are_read("%window-close"@, id);
    two_words_are_read("%session-closed"@, id);
    let b = "%window-close "@ + id;
    let c = "%session-closed "@ + id;
    assert("%window-close"@ + seq![' '] + id =~= b);
    assert("%session-closed"@ + seq![' '] + id =~= c);
    assert(b[1] == 'w' && c[1] == 's');
    assert(!has_prefix(b, "%output "@)) by {
        if has_prefix(b, "%output "@) {
            assert(b.subrange(0, 8)[1] == b[1]);
        }
    }
    assert(!has_prefix(c, "%output "@)) by {
        if has_prefix(c, "%output "@) {
            assert(c.subrange(0, 8)[1] == c[1]);
        }
    }
    assert("%window-close"@[1] == 'w' && "%session-closed"@[1] == 's' && "%exit"@[1] == 'e');
    assert(b.subrange(0, 14) =~= "%window-close "@);
    assert(c.subrange(0, 16) =~= "%session-closed "@);
    let d = "%layout-change "@ + data;
    assert(d.subrange(0, 15) =~= "%layout-change "@);
}

/// Two words with a space between them are read as two.
proof fn two_words_are_read(a: Seq<char>, b: Seq<char>)
    requires
        forall|j: int| 0 <= j < a.len() ==> a[j] != ' ',
        forall|j: int| 0 <= j < b.len() ==> b[j] != ' ',
    ensures
        first_word(a + seq![' '] + b) == a,
        second_word(a + seq![' '] + b) == Some(b),
        after_space(a + seq![' '] + b) == Some(b),
{
    let s = a + seq![' '] + b;
    let n = a.len() as int;
    assert forall|j: int| 0 <= j < n implies s[j] != ' ' by {
        assert(s[j] == a[j]);
    }
    assert(s[n] == ' ');
    crate::text::index_of_char_unique(s, ' ', n);
    assert(s.subrange(0, n) =~= a);
    assert(s.subrange(n + 1, s.len() as int) =~= b);
    crate::text::index_of_char_unique(b, ' ', b.len() as int);
    assert(b.subrange(0, b.len() as int) =~= b);
}

/// A layout change is read for its window and its layout.
pub proof fn written_layout_change_is_read(window: Seq<char>, layout: Seq<char>, more: Seq<char>)
    requires
        !window.contains(' '),
        !layout.contains(' '),
        more.len() > 0 ==> more[0] == ' ',
    ensures
        layout_change_of("%layout-change "@ + window + seq![' '] + layout + more) == Some(
            (window, layout),
        ),
{
    reveal_strlit("%layout-change ");
    reveal_strlit("%layout-change");
    let key = "%layout-change"@;
    let line = "%layout-change "@ + window + seq![' '] + layout + more;
    let rest = window + seq![' '] + layout + more;
    let tail = layout + more;
    assert(line =~= key + seq![' '] + rest);
    assert forall|j: int| 0 <= j < key.len() implies line[j] != ' ' by {
        assert(line[j] == key[j]);
    }
    crate::text::index_of_char_unique(line, ' ', key.len() as int);
    assert(line.subrange(0, key.len() as int) =~= key);
    assert(line.subrange(key.len() as int + 1, line.len() as int) =~= rest);
    let n = window.len() as int;
    assert forall|j: int| 0 <= j < n implies rest[j] != ' ' by {
        assert(window.contains(window[j]));
        assert(rest[j] == window[j]);
    }
    assert(rest[n] == ' ');
    crate::text::index_of_char_unique(rest, ' ', n);
    assert(rest.subrange(0, n) =~= window);
    assert(rest.subrange(n + 1, rest.len() as int) =~= tail);
    let m = layout.len() as int;
    assert forall|j: int| 0 <= j < m implies tail[j] != ' ' by {
        assert(layout.contains(layout[j]));
        assert(tail[j] == layout[j]);
    }
    if more.len() > 0 {
        assert(tail[m] == more[0]);
    }
    crate::text::index_of_char_unique(tail, ' ', m);
    assert(tail.subrange(0, m) =~= layout);
}

} // verus!
