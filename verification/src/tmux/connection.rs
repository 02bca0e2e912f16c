//! The control-mode connection: the commands that are written to tmux, and what
//! becomes of the answers.

use crate::mcp::{middle_is_told, tells};
use crate::parse::escape::{shell_escape, shell_quoted};
use crate::text::{
    chars_of, decimal, decimal_string, has_prefix, last_index_of_char, lossy_text, rfind_char,
    split_char, split_on, starts_with, string_of, substring, texts, trim, trimmed, utf8_lossy, views,
};
use crate::tmux::notification::{
    block_view, line_step, parse_line, CommandResponse, MessageModel, Notification,
    NotificationModel, ReaderMessage,
};
use vstd::prelude::*;
use vstd::string::StringExecFns;

verus! {

/// Why a command to tmux failed.
#[derive(Debug, Clone, PartialEq, Eq)]
pub enum Error {
    /// tmux could not be started.
    Spawn { reason: String },
    /// The command could not be written.
    Write { reason: String },
    /// The connection is closed.
    ConnectionClosed,
    /// tmux refused the command.
    CommandFailed { message: String },
}

impl Error {
    /// The text of the error.
    pub open spec fn text(self) -> Seq<char> {
        match self {
            Error::Spawn { reason } => "Failed to spawn tmux: "@ + reason@,
            Error::Write { reason } => "Failed to write to tmux stdin: "@ + reason@,
            Error::ConnectionClosed => "Tmux connection closed"@,
            Error::CommandFailed { message } => "Tmux command failed: "@ + message@,
        }
    }

    /// The text of the error.
    pub fn describe(&self) -> (r: String)
        ensures
            r@ == self.text(),
    {
        match self {
            Error::Spawn { reason } => with_suffix("Failed to spawn tmux: ", reason.as_str()),
            Error::Write { reason } => with_suffix(
                "Failed to write to tmux stdin: ",
                reason.as_str(),
            ),
            Error::ConnectionClosed => "Tmux connection closed".to_owned(),
            Error::CommandFailed { message } => with_suffix(
                "Tmux command failed: ",
                message.as_str(),
            ),
        }
    }
}

/// Two texts, one after the other.
fn with_suffix(a: &str, b: &str) -> (r: String)
    ensures
        r@ == a@ + b@,
{
    let mut out = a.to_owned();
    out.append(b);
    out
}

/// What a command returns, given the response to it: its output, or the error
/// where tmux refused it.
pub fn command_result(response: CommandResponse) -> (r: Result<String, Error>)
    ensures
        r == (if response.is_error {
            Err::<String, Error>(Error::CommandFailed { message: response.output })
        } else {
            Ok::<String, Error>(response.output)
        }),
{
    if response.is_error {
        Err(Error::CommandFailed { message: response.output })
    } else {
        Ok(response.output)
    }
}

/// The command that sends keys to a pane.
pub open spec fn keys_text(target: Seq<char>, keys: Seq<char>) -> Seq<char> {
    "send-keys -t "@ + target + " "@ + keys
}

/// The commands that type lines into a pane: the quoted text of each line that
/// is not empty, and `C-j` between lines.
pub open spec fn typing(target: Seq<char>, lines: Seq<Seq<char>>) -> Seq<Seq<char>>
    decreases lines.len(),
{
    if lines.len() == 0 {
        Seq::empty()
    } else {
        let before = typing(target, lines.drop_last());
        let broken = if lines.len() > 1 {
            before.push(keys_text(target, "C-j"@))
        } else {
            before
        };
        if lines.last().len() > 0 {
            broken.push(keys_text(target, shell_quoted(lines.last())))
        } else {
            broken
        }
    }
}

/// The command that sends keys, named as tmux names them, to a pane.
pub fn raw_keys_command(target: &str, keys: &str) -> (r: String)
    ensures
        r@ == keys_text(target@, keys@),
{
    let mut out = "send-keys -t ".to_owned();
    out.append(target);
    out.append(" ");
    out.append(keys);
    out
}

/// The commands that type text into a pane. A line feed separates commands in
/// control mode, so a text of several lines is sent line by line.
pub fn send_keys(target: &str, keys: &str) -> (r: Vec<String>)
    ensures
        texts(r@) == typing(target@, split_on(keys@, '\n')),
{
    let chars = chars_of(keys);
    let lines = split_char(chars.as_slice(), '\n');
    let ghost all = views(lines@);
    let n: usize = lines.len();
    let mut out: Vec<String> = Vec::new();
    let mut i: usize = 0;
    assert(texts(out@) =~= typing(target@, all.subrange(0, 0)));
    while i < n
        invariant
            i <= n == lines@.len(),
            all == views(lines@),
            texts(out@) == typing(target@, all.subrange(0, i as int)),
        decreases n - i,
    {
        let ghost next = all.subrange(0, i + 1);
        assert(next.drop_last() =~= all.subrange(0, i as int));
        let ghost before = texts(out@);
        if i > 0 {
            out.push(raw_keys_command(target, "C-j"));
            assert(texts(out@) =~= before.push(keys_text(target@, "C-j"@)));
        }
        let ghost broken = texts(out@);
        assert(next.last() == lines@[i as int]@);
        if lines[i].len() > 0 {
            let line = string_of(lines[i].as_slice());
            let quoted = shell_escape(line.as_str());
            out.push(raw_keys_command(target, quoted.as_str()));
            assert(texts(out@) =~= broken.push(keys_text(target@, shell_quoted(line@))));
        }
        i = i + 1;
    }
    assert(all.subrange(0, n as int) =~= all);
    out
}

/// The commands that type a command into a pane and run it.
pub fn send_command(target: &str, command: &str) -> (r: Vec<String>)
    ensures
        texts(r@) == typing(target@, split_on(command@, '\n')).push(keys_text(target@, "Enter"@)),
{
    let mut out = send_keys(target, command);
    let ghost before = texts(out@);
    out.push(raw_keys_command(target, "Enter"));
    assert(texts(out@) =~= before.push(keys_text(target@, "Enter"@)));
    out
}

/// The fields of a listed pane.
pub const PANE_FIELDS: &'static str =
    "#{window_id}\t#{pane_id}\t#{pane_index}\t#{pane_active}\t#{pane_title}\t#{pane_current_command}\t#{pane_current_path}\t#{pane_width}\t#{pane_height}";

/// The command that lists the panes of a window or, session-wide, of a session.
pub fn list_panes(target: &str, session_wide: bool) -> (r: String)
    ensures
        r@ == "list-panes "@ + (if session_wide {
            "-s"@
        } else {
            ""@
        }) + " -t "@ + target@ + " -F \""@ + PANE_FIELDS@ + "\""@,
{
    let mut out = "list-panes ".to_owned();
    out.append(
        if session_wide {
            "-s"
        } else {
            ""
        },
    );
    out.append(" -t ");
    out.append(target);
    out.append(" -F \"");
    out.append(PANE_FIELDS);
    out.append("\"");
    out
}

/// The decimal digits of a number, with a sign where it is negative.
pub open spec fn signed_decimal(n: int) -> Seq<char> {
    if n < 0 {
        "-"@ + decimal((-n) as nat)
    } else {
        decimal(n as nat)
    }
}

/// The decimal digits of a number, with a sign where it is negative.
pub fn signed_string(n: i64) -> (r: String)
    ensures
        r@ == signed_decimal(n as int),
{
    if n < 0 {
        let magnitude: u64 = if n == i64::MIN {
            9_223_372_036_854_775_808
        } else {
            (-n) as u64
        };
        let digits = decimal_string(magnitude);
        with_suffix("-", digits.as_str())
    } else {
        decimal_string(n as u64)
    }
}

/// The command that captures a pane with that many lines of its history.
pub fn capture_pane(target: &str, scrollback: i32) -> (r: String)
    ensures
        r@ == "capture-pane -J -p -t "@ + target@ + " -S -"@ + signed_decimal(scrollback as int),
{
    let mut out = "capture-pane -J -p -t ".to_owned();
    out.append(target);
    out.append(" -S -");
    let lines = signed_string(scrollback as i64);
    out.append(lines.as_str());
    out
}

/// The command that turns the output notifications of a pane on or off.
pub open spec fn output_text(pane_id: Seq<char>, on: bool) -> Seq<char> {
    "refresh-client -A '"@ + pane_id + (if on {
        ":on'"@
    } else {
        ":off'"@
    })
}

/// The command that turns the output notifications of a pane on.
pub fn enable_pane_output(pane_id: &str) -> (r: String)
    ensures
        r@ == output_text(pane_id@, true),
{
    let mut out = "refresh-client -A '".to_owned();
    out.append(pane_id);
    out.append(":on'");
    out
}

/// The command that turns the output notifications of a pane off.
pub fn disable_pane_output(pane_id: &str) -> (r: String)
    ensures
        r@ == output_text(pane_id@, false),
{
    let mut out = "refresh-client -A '".to_owned();
    out.append(pane_id);
    out.append(":off'");
    out
}

/// The command that asks for the process of a pane.
pub fn query_pane_pid(pane_id: &str) -> (r: String)
    ensures
        r@ == "display-message -p -t "@ + pane_id@ + " '#{pane_pid}'"@,
{
    let mut out = "display-message -p -t ".to_owned();
    out.append(pane_id);
    out.append(" '#{pane_pid}'");
    out
}

/// The answer of a tmux command run on its own: its output without white space
/// around it.
pub fn tmux_answer(stdout: &[u8]) -> (r: String)
    ensures
        r@ == trimmed(lossy_text(stdout@)),
{
    let text = utf8_lossy(stdout);
    trim(text.as_str())
}

/// What stands behind the last comma of a text.
pub open spec fn after_last_comma(s: Seq<char>) -> Seq<char> {
    s.subrange(last_index_of_char(s, ',') + 1, s.len() as int)
}

/// What stands behind the last comma of a text.
pub fn last_field(s: &[char]) -> (r: String)
    ensures
        r@ == after_last_comma(s@),
{
    let n: usize = s.len();
    let from: usize = match rfind_char(s, ',') {
        Some(i) => i + 1,
        None => 0,
    };
    substring(s, from, n)
}

/// The session identifier in the `TMUX` variable, which reads
/// `/tmp/tmux-1000/default,12345,$0`; none where its last field is no identifier.
pub fn session_id_in(tmux_env: &str) -> (r: Option<String>)
    ensures
        match r {
            Some(id) => has_prefix(id@, "$"@) && id@ == after_last_comma(tmux_env@),
            None => !has_prefix(after_last_comma(tmux_env@), "$"@),
        },
{
    let chars = chars_of(tmux_env);
    let field = last_field(chars.as_slice());
    let of_field = chars_of(field.as_str());
    let sign = chars_of("$");
    if starts_with(of_field.as_slice(), sign.as_slice()) {
        Some(field)
    } else {
        None
    }
}

/// A session identifier from what tmux answers: with the dollar sign it may
/// lack.
pub fn session_id_of(answer: &str) -> (r: String)
    ensures
        r@ == (if has_prefix(answer@, "$"@) {
            answer@
        } else {
            "$"@ + answer@
        }),
{
    let chars = chars_of(answer);
    let sign = chars_of("$");
    if starts_with(chars.as_slice(), sign.as_slice()) {
        answer.to_owned()
    } else {
        with_suffix("$", answer)
    }
}

/// A text without the run of one character at its end.
pub open spec fn without_tail(s: Seq<char>, c: char) -> Seq<char>
    decreases s.len(),
{
    if s.len() > 0 && s.last() == c {
        without_tail(s.drop_last(), c)
    } else {
        s
    }
}

/// The length of a text without the run of one character at its end.
fn tail_start(s: &[char], end: usize, c: char) -> (r: usize)
    requires
        end <= s@.len(),
    ensures
        r <= end,
        s@.subrange(0, r as int) == without_tail(s@.subrange(0, end as int), c),
{
    let mut to: usize = end;
    while to > 0 && s[to - 1] == c
        invariant
            to <= end <= s@.len(),
            without_tail(s@.subrange(0, end as int), c) == without_tail(
                s@.subrange(0, to as int),
                c,
            ),
        decreases to,
    {
        assert(s@.subrange(0, to as int).drop_last() =~= s@.subrange(0, to - 1));
        to = to - 1;
    }
    to
}

/// The text of a line as it was read, without its line ending.
pub open spec fn line_text(bytes: Seq<u8>) -> Seq<char> {
    without_tail(without_tail(lossy_text(bytes), '\n'), '\r')
}

/// The text of a line as it was read, without its line ending.
pub fn read_line(bytes: &[u8]) -> (r: String)
    ensures
        r@ == line_text(bytes@),
{
    let text = utf8_lossy(bytes);
    let chars = chars_of(text.as_str());
    let n: usize = chars.len();
    assert(chars@.subrange(0, n as int) =~= chars@);
    let feed: usize = tail_start(chars.as_slice(), n, '\n');
    let end: usize = tail_start(chars.as_slice(), feed, '\r');
    substring(chars.as_slice(), 0, end)
}

/// What is to be done with what a line completes.
#[derive(Debug)]
pub enum Delivery {
    /// Nothing is complete yet.
    Wait,
    /// The response to the command that was registered as `id`.
    Answer { id: u64, response: CommandResponse },
    /// A response that no command waits for.
    Unasked { response: CommandResponse },
    /// A notification.
    Notify { notification: Notification },
}

/// A delivery, mathematically.
pub ghost enum DeliveryModel {
    Wait,
    Answer { id: u64, output: Seq<char>, is_error: bool },
    Unasked { output: Seq<char>, is_error: bool },
    Notify(NotificationModel),
}

impl View for Delivery {
    type V = DeliveryModel;

    open spec fn view(&self) -> DeliveryModel {
        match *self {
            Delivery::Wait => DeliveryModel::Wait,
            Delivery::Answer { id, response } => DeliveryModel::Answer {
                id,
                output: response.output@,
                is_error: response.is_error,
            },
            Delivery::Unasked { response } => DeliveryModel::Unasked {
                output: response.output@,
                is_error: response.is_error,
            },
            Delivery::Notify { notification } => DeliveryModel::Notify(notification@),
        }
    }
}

/// What the reader knows: the commands that wait for a response, the oldest
/// first, and the response that is being read.
pub ghost struct ReaderModel {
    pub pending: Seq<u64>,
    pub block: Option<Seq<Seq<char>>>,
}

impl ReaderModel {
    /// A line was read.
    pub open spec fn step(self, line: Seq<char>) -> (ReaderModel, DeliveryModel) {
        let (block, message) = line_step(line, self.block);
        match message {
            None => (ReaderModel { block, ..self }, DeliveryModel::Wait),
            Some(MessageModel::Notification(n)) => (
                ReaderModel { block, ..self },
                DeliveryModel::Notify(n),
            ),
            Some(MessageModel::Response { output, is_error }) => if self.pending.len() > 0 {
                (
                    ReaderModel { block, pending: self.pending.drop_first() },
                    DeliveryModel::Answer { id: self.pending[0], output, is_error },
                )
            } else {
                (ReaderModel { block, ..self }, DeliveryModel::Unasked { output, is_error })
            },
        }
    }

    /// Lines were read: the state, and the commands that were answered.
    pub open spec fn answered(self, lines: Seq<Seq<char>>) -> (ReaderModel, Seq<u64>)
        decreases lines.len(),
    {
        if lines.len() == 0 {
            (self, Seq::empty())
        } else {
            let (m, ids) = self.answered(lines.drop_last());
            match m.step(lines.last()) {
                (next, DeliveryModel::Answer { id, .. }) => (next, ids.push(id)),
                (next, _) => (next, ids),
            }
        }
    }
}

/// The reader of a control-mode stream.
#[derive(Debug)]
pub struct ResponseReader {
    pending: Vec<u64>,
    block: Option<Vec<String>>,
}

impl View for ResponseReader {
    type V = ReaderModel;

    closed spec fn view(&self) -> ReaderModel {
        ReaderModel { pending: self.pending@, block: block_view(self.block) }
    }
}

impl ResponseReader {
    /// A reader at the start of a stream.
    pub fn new() -> (r: Self)
        ensures
            r@ == (ReaderModel { pending: Seq::empty(), block: None }),
    {
        let r = Self { pending: Vec::new(), block: None };
        assert(r.pending@ =~= Seq::<u64>::empty());
        r
    }

    /// A command is about to be written; it waits behind the others.
    pub fn register(&mut self, id: u64)
        ensures
            final(self)@ == (ReaderModel { pending: old(self)@.pending.push(id), ..old(self)@ }),
    {
        self.pending.push(id);
    }

    /// A line was read.
    pub fn line(&mut self, bytes: &[u8]) -> (r: Delivery)
        ensures
            (final(self)@, r@) == old(self)@.step(line_text(bytes@)),
    {
        let text = read_line(bytes);
        match parse_line(text.as_str(), &mut self.block) {
            None => Delivery::Wait,
            Some(ReaderMessage::Notification(notification)) => Delivery::Notify { notification },
            Some(ReaderMessage::Response(response)) => {
                if self.pending.len() > 0 {
                    let ghost waiting = self.pending@;
                    let id: u64 = self.pending.remove(0);
                    assert(self.pending@ =~= waiting.drop_first());
                    Delivery::Answer { id, response }
                } else {
                    Delivery::Unasked { response }
                }
            },
        }
    }
}

/// Commands are answered in the order in which they were registered, each once.
pub proof fn answers_come_in_order(m: ReaderModel, lines: Seq<Seq<char>>)
    ensures
        m.answered(lines).1 + m.answered(lines).0.pending == m.pending,
    decreases lines.len(),
{
    if lines.len() == 0 {
        assert(m.answered(lines).1 + m.pending =~= m.pending);
    } else {
        answers_come_in_order(m, lines.drop_last());
        let (before, ids) = m.answered(lines.drop_last());
        let (after, all) = m.answered(lines);
        assert(all + after.pending =~= ids + before.pending);
    }
}

/// What the commands that type lines make a shell read: a line feed for `C-j`,
/// and for a line what its quotes enclose.
pub open spec fn typed_text(lines: Seq<Seq<char>>) -> Seq<char>
    decreases lines.len(),
{
    if lines.len() == 0 {
        Seq::empty()
    } else {
        let before = typed_text(lines.drop_last());
        let broken = if lines.len() > 1 {
            before.push('\n')
        } else {
            before
        };
        broken + crate::parse::escape::shell_reads(shell_quoted(lines.last()), false)
    }
}

/// Typing one line more in front.
proof fn typed_in_front(first: Seq<char>, rest: Seq<Seq<char>>)
    requires
        rest.len() > 0,
    ensures
        typed_text(seq![first] + rest) == first + seq!['\n'] + typed_text(rest),
    decreases rest.len(),
{
    let all = seq![first] + rest;
    assert(all.drop_last() =~= seq![first] + rest.drop_last());
    assert(all.last() == rest.last());
    let last = crate::parse::escape::shell_reads(shell_quoted(rest.last()), false);
    if rest.len() == 1 {
        crate::parse::escape::shell_escape_round_trip(first);
        assert(all.drop_last() =~= seq![first]);
        assert(seq![first].drop_last() =~= Seq::<Seq<char>>::empty());
        assert(typed_text(Seq::<Seq<char>>::empty()) == Seq::<char>::empty());
        assert(typed_text(seq![first]) =~= first);
        assert(rest.drop_last() =~= Seq::<Seq<char>>::empty());
        assert(typed_text(rest) =~= last);
        assert(typed_text(all) =~= first + seq!['\n'] + typed_text(rest));
    } else {
        typed_in_front(first, rest.drop_last());
        assert(typed_text(all) =~= first + seq!['\n'] + typed_text(rest));
    }
}

/// Text that is sent to a pane is read by its shell as it is, on one line or
/// several.
pub proof fn sent_text_is_read(keys: Seq<char>)
    ensures
        typed_text(split_on(keys, '\n')) == keys,
    decreases keys.len(),
{
    crate::text::index_of_char_is_first(keys, '\n');
    let i = crate::text::index_of_char(keys, '\n');
    if i >= keys.len() {
        crate::parse::escape::shell_escape_round_trip(keys);
        assert(seq![keys].drop_last() =~= Seq::<Seq<char>>::empty());
        assert(typed_text(Seq::<Seq<char>>::empty()) == Seq::<char>::empty());
        assert(typed_text(seq![keys]) =~= keys);
    } else {
        let rest = keys.subrange(i + 1, keys.len() as int);
        sent_text_is_read(rest);
        typed_in_front(keys.subrange(0, i), split_on(rest, '\n'));
        assert(keys =~= keys.subrange(0, i) + seq!['\n'] + rest);
    }
}

/// The output of a pane is turned on by one command and off by another, and the
/// keys that are sent go to the pane that is named.
pub proof fn commands_name_the_pane(pane: Seq<char>, keys: Seq<char>)
    ensures
        output_text(pane, true) == "refresh-client -A '"@ + pane + ":on'"@,
        output_text(pane, false) == "refresh-client -A '"@ + pane + ":off'"@,
        output_text(pane, true) != output_text(pane, false),
        tells(keys_text(pane, keys), pane),
        tells(keys_text(pane, keys), keys),
{
    reveal_strlit(":on'");
    reveal_strlit(":off'");
    assert(output_text(pane, true).len() != output_text(pane, false).len());
    let none = Seq::<char>::empty();
    let a = "send-keys -t "@;
    assert(keys_text(pane, keys) =~= a + pane + (" "@ + keys));
    middle_is_told(a, pane, " "@ + keys);
    assert(keys_text(pane, keys) =~= (a + pane + " "@) + keys + none);
    middle_is_told(a + pane + " "@, keys, none);
}

} // verus!
