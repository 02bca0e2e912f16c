//! The tools that are offered to a model: their parameters, and the text that
//! their results are told with.

use crate::text::{decimal, decimal_is_read, decimal_string, is_digit, lines_of, opt_text, split_lines, str_eq, trim_end, trim_end_chars, chars_of, string_of, white_space};
use crate::tmux::connection::{signed_decimal, signed_string};
use vstd::prelude::*;
use vstd::string::StringExecFns;

verus! {

/// Parameters of `command_run`.
#[derive(Debug, Clone, PartialEq, Eq)]
pub struct CommandRunParams {
    pub pane_id: String,
    pub command: String,
    pub timeout_secs: Option<i64>,
    pub next: Option<i64>,
    pub head: Option<i64>,
    pub tail: Option<i64>,
    pub search: Option<String>,
    pub before: Option<i64>,
    pub after: Option<i64>,
}

/// Parameters of `command_read`.
#[derive(Debug, Clone, PartialEq, Eq)]
pub struct CommandReadParams {
    pub pane_id: String,
    pub command_id: Option<i64>,
    pub timeout_secs: Option<i64>,
    pub next: Option<i64>,
    pub head: Option<i64>,
    pub tail: Option<i64>,
    pub search: Option<String>,
    pub before: Option<i64>,
    pub after: Option<i64>,
}

/// Parameters of `command_history`.
#[derive(Debug, Clone, PartialEq, Eq)]
pub struct CommandHistoryParams {
    pub pane_id: String,
    pub count: Option<i64>,
}

/// Parameters of `debug_pane`.
#[derive(Debug, Clone, PartialEq, Eq)]
pub struct DebugPaneParams {
    pub pane_id: String,
    pub lines: Option<i64>,
}

/// Parameters of `inject_osc133`.
#[derive(Debug, Clone, PartialEq, Eq)]
pub struct InjectOsc133Params {
    pub pane_id: String,
}

/// Parameters of `press_key`.
#[derive(Debug, Clone, PartialEq, Eq)]
pub struct PressKeyParams {
    pub pane_id: String,
    pub keys: String,
}

/// Seconds that `command_run` waits where none are given.
pub const RUN_TIMEOUT: i64 = 30;

/// Seconds that `command_read` waits where none are given.
pub const READ_TIMEOUT: i64 = 5;

/// Number of commands that `command_history` lists where none is given.
pub const HISTORY_COUNT: i64 = 10;

/// Number of lines that `debug_pane` shows where none is given.
pub const DEBUG_LINES: i64 = 50;

/// A number, or another where there is none.
pub open spec fn number_or(n: Option<i64>, other: i64) -> i64 {
    match n {
        Some(v) => v,
        None => other,
    }
}

/// A number, or another where there is none.
fn or_number(n: Option<i64>, other: i64) -> (r: i64)
    ensures
        r == number_or(n, other),
{
    match n {
        Some(v) => v,
        None => other,
    }
}

impl CommandRunParams {
    /// Seconds to wait.
    pub fn timeout(&self) -> (r: i64)
        ensures
            r == number_or(self.timeout_secs, RUN_TIMEOUT),
    {
        or_number(self.timeout_secs, RUN_TIMEOUT)
    }
}

impl CommandReadParams {
    /// Seconds to wait.
    pub fn timeout(&self) -> (r: i64)
        ensures
            r == number_or(self.timeout_secs, READ_TIMEOUT),
    {
        or_number(self.timeout_secs, READ_TIMEOUT)
    }
}

impl CommandHistoryParams {
    /// Number of commands to list.
    pub fn count(&self) -> (r: i64)
        ensures
            r == number_or(self.count, HISTORY_COUNT),
    {
        or_number(self.count, HISTORY_COUNT)
    }
}

impl DebugPaneParams {
    /// Number of lines to show.
    pub fn lines(&self) -> (r: i64)
        ensures
            r == number_or(self.lines, DEBUG_LINES),
    {
        or_number(self.lines, DEBUG_LINES)
    }
}

/// What the daemon answered of a command.
#[derive(Debug, Clone, PartialEq, Eq)]
pub struct CommandResult {
    pub status: String,
    pub output: String,
    pub exit_code: Option<i64>,
    pub command_id: Option<u64>,
    pub total_lines: u64,
    pub command: String,
    pub lines_skipped: u64,
    pub search_matches: Option<u64>,
    pub read_cursor: u64,
}

/// The command itself, where it was run.
pub open spec fn header_text(r: CommandResult, is_run: bool) -> Seq<char> {
    if is_run && r.command@.len() > 0 {
        "$ "@ + r.command@ + "\n"@
    } else {
        ""@
    }
}

/// Number of skipped lines that were read before.
pub open spec fn already_read(r: CommandResult) -> int {
    if r.read_cursor < r.lines_skipped {
        r.read_cursor as int
    } else {
        r.lines_skipped as int
    }
}

/// A line that tells a number of lines.
pub open spec fn lines_hint(n: int, what: Seq<char>) -> Seq<char> {
    if n > 0 {
        "<"@ + decimal(n as nat) + " lines "@ + what + ">\n"@
    } else {
        ""@
    }
}

/// What is told of skipped lines.
pub open spec fn skipped_text(r: CommandResult) -> Seq<char> {
    lines_hint(already_read(r), "already read"@) + lines_hint(
        r.lines_skipped - already_read(r),
        "not shown"@,
    )
}

/// The output, with a line feed at its end.
pub open spec fn body_text(output: Seq<char>) -> Seq<char> {
    if output.len() == 0 {
        ""@
    } else if output.last() == '\n' {
        output
    } else {
        output + "\n"@
    }
}

/// What is told where output of a command that was run is not shown.
pub open spec fn filter_text(r: CommandResult, id: nat) -> Seq<char> {
    if r.search_matches == Some(0u64) {
        "\n[Search had no matches. Use command_read(command_id="@ + decimal(id)
            + ", tail=50) to browse the end, or command_read(command_id="@ + decimal(id)
            + ", search=\"different pattern\") to try again.]"@
    } else if r.lines_skipped > 0 {
        "\n[Output filtered ("@ + decimal(r.total_lines as nat)
            + " lines total). Use command_read(command_id="@ + decimal(id)
            + ") with head, tail, or search for different views of the same command output.]"@
    } else {
        ""@
    }
}

/// The number of matches, where a pattern was given.
pub open spec fn matches_text(r: CommandResult) -> Seq<char> {
    match r.search_matches {
        Some(n) => "\n["@ + decimal(n as nat) + " matches in "@ + decimal(r.total_lines as nat)
            + " lines.]"@,
        None => ""@,
    }
}

/// The exit code, where there is one.
pub open spec fn exit_text(r: CommandResult) -> Seq<char> {
    match r.exit_code {
        Some(code) => "\nExit code: "@ + signed_decimal(code as int),
        None => ""@,
    }
}

/// What is told of a command that has ended.
pub open spec fn completed_text(r: CommandResult, is_run: bool) -> Seq<char> {
    exit_text(r) + matches_text(r) + (match r.command_id {
        Some(id) => if is_run {
            filter_text(r, id as nat)
        } else if r.output@.len() == 0 {
            "\n[Command "@ + decimal(id as nat)
                + " completed. No unread output. Use head, tail, or search to review full output ("@
                + decimal(r.total_lines as nat) + " lines).]"@
        } else {
            ""@
        },
        None => ""@,
    })
}

/// What is told of a command that runs.
pub open spec fn running_text(r: CommandResult) -> Seq<char> {
    match r.command_id {
        Some(id) => if r.output@.len() == 0 {
            "\n[No new output. Command still running (id="@ + decimal(id as nat)
                + "). Increase timeout_secs or use press_key C-c to cancel.]"@
        } else {
            "\n[Command still running (id="@ + decimal(id as nat) + "). "@ + decimal(
                lines_of(r.output@).len(),
            ) + " lines shown, "@ + decimal(r.total_lines as nat) + " total."@ + (
            match r.search_matches {
                Some(n) => " "@ + decimal(n as nat) + " search matches."@,
                None => ""@,
            }) + " Use command_read(command_id="@ + decimal(id as nat)
                + ", next=200) to continue reading, or press_key C-c to cancel.]"@
        },
        None => ""@,
    }
}

/// What is told of the status.
pub open spec fn footer_text(r: CommandResult, is_run: bool) -> Seq<char> {
    if r.status@ == "completed"@ {
        completed_text(r, is_run)
    } else if r.status@ == "running"@ {
        running_text(r)
    } else {
        ""@
    }
}

/// The text for the result of a command.
pub open spec fn result_text(r: CommandResult, is_run: bool) -> Seq<char> {
    trim_end(header_text(r, is_run) + skipped_text(r) + body_text(r.output@) + footer_text(r, is_run))
}

/// Append a number.
fn append_number(out: &mut String, n: u64)
    ensures
        final(out)@ == old(out)@ + decimal(n as nat),
{
    let digits = decimal_string(n);
    out.append(digits.as_str());
}

/// What is told where output of a command that was run is not shown.
fn filter_hint(r: &CommandResult, id: u64) -> (t: String)
    ensures
        t@ == filter_text(*r, id as nat),
{
    let none = match r.search_matches {
        Some(n) => n == 0,
        None => false,
    };
    if none {
        let mut out = "\n[Search had no matches. Use command_read(command_id=".to_owned();
        append_number(&mut out, id);
        out.append(", tail=50) to browse the end, or command_read(command_id=");
        append_number(&mut out, id);
        out.append(", search=\"different pattern\") to try again.]");
        out
    } else if r.lines_skipped > 0 {
        let mut out = "\n[Output filtered (".to_owned();
        append_number(&mut out, r.total_lines);
        out.append(" lines total). Use command_read(command_id=");
        append_number(&mut out, id);
        out.append(
            ") with head, tail, or search for different views of the same command output.]",
        );
        out
    } else {
        "".to_owned()
    }
}

/// What is told of a command that has ended.
fn completed_footer(r: &CommandResult, is_run: bool) -> (t: String)
    ensures
        t@ == completed_text(*r, is_run),
{
    let mut out = match r.exit_code {
        Some(code) => {
            let mut s = "\nExit code: ".to_owned();
            let digits = signed_string(code);
            s.append(digits.as_str());
            s
        },
        None => "".to_owned(),
    };
    let found = match r.search_matches {
        Some(n) => {
            let mut s = "\n[".to_owned();
            append_number(&mut s, n);
            s.append(" matches in ");
            append_number(&mut s, r.total_lines);
            s.append(" lines.]");
            s
        },
        None => "".to_owned(),
    };
    out.append(found.as_str());
    let hint = match r.command_id {
        Some(id) => if is_run {
            filter_hint(r, id)
        } else if r.output.as_str().is_empty() {
            let mut s = "\n[Command ".to_owned();
            append_number(&mut s, id);
            s.append(
                " completed. No unread output. Use head, tail, or search to review full output (",
            );
            append_number(&mut s, r.total_lines);
            s.append(" lines).]");
            s
        } else {
            "".to_owned()
        },
        None => "".to_owned(),
    };
    out.append(hint.as_str());
    out
}

/// What is told of a command that runs.
fn running_footer(r: &CommandResult) -> (t: String)
    ensures
        t@ == running_text(*r),
{
    match r.command_id {
        Some(id) => if r.output.as_str().is_empty() {
            let mut out = "\n[No new output. Command still running (id=".to_owned();
            append_number(&mut out, id);
            out.append("). Increase timeout_secs or use press_key C-c to cancel.]");
            out
        } else {
            let shown = split_lines(r.output.as_str());
            let mut out = "\n[Command still running (id=".to_owned();
            append_number(&mut out, id);
            out.append("). ");
            append_number(&mut out, shown.len() as u64);
            out.append(" lines shown, ");
            append_number(&mut out, r.total_lines);
            out.append(" total.");
            let found = match r.search_matches {
                Some(n) => {
                    let mut s = " ".to_owned();
                    append_number(&mut s, n);
                    s.append(" search matches.");
                    s
                },
                None => "".to_owned(),
            };
            out.append(found.as_str());
            out.append(" Use command_read(command_id=");
            append_number(&mut out, id);
            out.append(", next=200) to continue reading, or press_key C-c to cancel.]");
            out
        },
        None => "".to_owned(),
    }
}

/// A line that tells a number of lines.
fn hint_line(n: u64, what: &str) -> (t: String)
    ensures
        t@ == lines_hint(n as int, what@),
{
    if n > 0 {
        let mut out = "<".to_owned();
        append_number(&mut out, n);
        out.append(" lines ");
        out.append(what);
        out.append(">\n");
        out
    } else {
        "".to_owned()
    }
}

/// The output, with a line feed at its end.
fn body(output: &str) -> (t: String)
    ensures
        t@ == body_text(output@),
{
    let chars = chars_of(output);
    let n: usize = chars.len();
    if n == 0 {
        return "".to_owned();
    }
    let mut out = output.to_owned();
    if chars[n - 1] != '\n' {
        out.append("\n");
    }
    out
}

/// The text for the result of a command, with hints on what to do next.
pub fn format_command_result(result: &CommandResult, is_run: bool) -> (t: String)
    ensures
        t@ == result_text(*result, is_run),
{
    let mut text = if is_run && !result.command.as_str().is_empty() {
        let mut s = "$ ".to_owned();
        s.append(result.command.as_str());
        s.append("\n");
        s
    } else {
        "".to_owned()
    };
    let read: u64 = if result.read_cursor < result.lines_skipped {
        result.read_cursor
    } else {
        result.lines_skipped
    };
    let mut skipped = hint_line(read, "already read");
    let unseen = hint_line(result.lines_skipped - read, "not shown");
    skipped.append(unseen.as_str());
    text.append(skipped.as_str());
    let shown = body(result.output.as_str());
    text.append(shown.as_str());
    let footer = if str_eq(result.status.as_str(), "completed") {
        completed_footer(result, is_run)
    } else if str_eq(result.status.as_str(), "running") {
        running_footer(result)
    } else {
        "".to_owned()
    };
    text.append(footer.as_str());
    let chars = chars_of(text.as_str());
    string_of(trim_end_chars(chars.as_slice()))
}

/// Whether the result of a command is an error: it ended, and not with 0.
pub fn is_failure(exit_code: Option<i64>) -> (r: bool)
    ensures
        r == (exit_code matches Some(code) && code != 0),
{
    match exit_code {
        Some(code) => code != 0,
        None => false,
    }
}

/// A command of the history, as the daemon told it.
#[derive(Debug, Clone, PartialEq, Eq)]
pub struct HistoryRow {
    pub command_id: Option<u64>,
    pub exit_code: Option<i64>,
    pub output_lines: Option<u64>,
    pub command: String,
}

/// A number, or a dash where there is none.
pub open spec fn number_or_dash(n: Option<u64>) -> Seq<char> {
    match n {
        Some(v) => decimal(v as nat),
        None => "-"@,
    }
}

/// An exit code, or a dash where there is none.
pub open spec fn code_or_dash(n: Option<i64>) -> Seq<char> {
    match n {
        Some(v) => signed_decimal(v as int),
        None => "-"@,
    }
}

/// The cells of a row.
pub ghost struct RowModel {
    pub id: Seq<char>,
    pub exit: Seq<char>,
    pub lines: Seq<char>,
    pub command: Seq<char>,
}

/// The cells of a command of the history.
pub open spec fn cells(r: HistoryRow) -> RowModel {
    RowModel {
        id: number_or_dash(r.command_id),
        exit: code_or_dash(r.exit_code),
        lines: number_or_dash(r.output_lines),
        command: r.command@,
    }
}

/// The cells above the table.
pub open spec fn heading() -> RowModel {
    RowModel { id: "ID"@, exit: "Exit"@, lines: "Lines"@, command: "Command"@ }
}

/// The greater of two widths.
pub open spec fn wider(a: int, b: int) -> int {
    if a < b {
        b
    } else {
        a
    }
}

/// The widths of the first three columns: none of their cells is wider.
pub open spec fn widths(rows: Seq<HistoryRow>, n: int) -> (int, int, int)
    decreases n,
{
    if n <= 0 {
        (heading().id.len() as int, heading().exit.len() as int, heading().lines.len() as int)
    } else {
        let (a, b, c) = widths(rows, n - 1);
        let row = cells(rows[n - 1]);
        (
            wider(a, row.id.len() as int),
            wider(b, row.exit.len() as int),
            wider(c, row.lines.len() as int),
        )
    }
}

/// A cell with spaces before it up to a width.
pub open spec fn padded(s: Seq<char>, width: int) -> Seq<char> {
    Seq::new(
        if s.len() < width {
            (width - s.len()) as nat
        } else {
            0
        },
        |i: int| ' ',
    ) + s
}

/// A row of the table.
pub open spec fn row_text(r: RowModel, w: (int, int, int)) -> Seq<char> {
    padded(r.id, w.0) + "  "@ + padded(r.exit, w.1) + "  "@ + padded(r.lines, w.2) + "  "@ + r.command
        + "\n"@
}

/// The first `n` rows of the table below its heading.
pub open spec fn table_text(rows: Seq<HistoryRow>, w: (int, int, int), n: int) -> Seq<char>
    decreases n,
{
    if n <= 0 {
        row_text(heading(), w)
    } else {
        table_text(rows, w, n - 1) + row_text(cells(rows[n - 1]), w)
    }
}

/// The text for a history.
pub open spec fn history_text(rows: Seq<HistoryRow>) -> Seq<char> {
    if rows.len() == 0 {
        "(no history)"@
    } else {
        trim_end(table_text(rows, widths(rows, rows.len() as int), rows.len() as int))
    }
}

/// A number, or a dash where there is none.
fn number_cell(n: Option<u64>) -> (r: String)
    ensures
        r@ == number_or_dash(n),
{
    match n {
        Some(v) => decimal_string(v),
        None => "-".to_owned(),
    }
}

/// An exit code, or a dash where there is none.
fn code_cell(n: Option<i64>) -> (r: String)
    ensures
        r@ == code_or_dash(n),
{
    match n {
        Some(v) => signed_string(v),
        None => "-".to_owned(),
    }
}

/// The greater of a width and the length of a cell.
fn at_least(width: usize, cell: &str) -> (r: usize)
    ensures
        r == wider(width as int, cell@.len() as int),
{
    let chars = chars_of(cell);
    let n: usize = chars.len();
    if width < n {
        n
    } else {
        width
    }
}

/// Append a cell with spaces before it.
fn append_padded(out: &mut String, cell: &str, width: usize)
    ensures
        final(out)@ == old(out)@ + padded(cell@, width as int),
{
    let chars = chars_of(cell);
    let n: usize = chars.len();
    let pad: usize = if n < width {
        width - n
    } else {
        0
    };
    let ghost before = out@;
    let mut i: usize = 0;
    assert(out@ =~= before + Seq::new(0, |k: int| ' '));
    while i < pad
        invariant
            i <= pad,
            out@ == before + Seq::new(i as nat, |k: int| ' '),
        decreases pad - i,
    {
        out.append(" ");
        proof {
            reveal_strlit(" ");
            assert(out@ =~= before + Seq::new((i + 1) as nat, |k: int| ' '));
        }
        i = i + 1;
    }
    out.append(cell);
    assert(out@ =~= before + padded(cell@, width as int));
}

/// Append a row.
fn append_row(
    out: &mut String,
    id: &str,
    exit: &str,
    lines: &str,
    command: &str,
    w: (usize, usize, usize),
)
    ensures
        final(out)@ == old(out)@ + row_text(
            RowModel { id: id@, exit: exit@, lines: lines@, command: command@ },
            (w.0 as int, w.1 as int, w.2 as int),
        ),
{
    let ghost before = out@;
    append_padded(out, id, w.0);
    out.append("  ");
    append_padded(out, exit, w.1);
    out.append("  ");
    append_padded(out, lines, w.2);
    out.append("  ");
    out.append(command);
    out.append("\n");
    assert(out@ =~= before + row_text(
        RowModel { id: id@, exit: exit@, lines: lines@, command: command@ },
        (w.0 as int, w.1 as int, w.2 as int),
    ));
}

/// The text for a history: a table with its columns aligned.
pub fn format_command_history(rows: &Vec<HistoryRow>) -> (t: String)
    ensures
        t@ == history_text(rows@),
{
    let n: usize = rows.len();
    if n == 0 {
        return "(no history)".to_owned();
    }
    let mut w: (usize, usize, usize) = (2, 4, 5);
    proof {
        reveal_strlit("ID");
        reveal_strlit("Exit");
        reveal_strlit("Lines");
    }
    let mut i: usize = 0;
    while i < n
        invariant
            i <= n == rows@.len(),
            (w.0 as int, w.1 as int, w.2 as int) == widths(rows@, i as int),
        decreases n - i,
    {
        let id = number_cell(rows[i].command_id);
        let exit = code_cell(rows[i].exit_code);
        let lines = number_cell(rows[i].output_lines);
        w = (
            at_least(w.0, id.as_str()),
            at_least(w.1, exit.as_str()),
            at_least(w.2, lines.as_str()),
        );
        i = i + 1;
    }
    let ghost columns = (w.0 as int, w.1 as int, w.2 as int);
    let mut out = String::new();
    append_row(&mut out, "ID", "Exit", "Lines", "Command", w);
    assert(out@ =~= table_text(rows@, columns, 0));
    let mut k: usize = 0;
    while k < n
        invariant
            k <= n == rows@.len(),
            columns == (w.0 as int, w.1 as int, w.2 as int),
            out@ == table_text(rows@, columns, k as int),
        decreases n - k,
    {
        let id = number_cell(rows[k].command_id);
        let exit = code_cell(rows[k].exit_code);
        let lines = number_cell(rows[k].output_lines);
        append_row(
            &mut out,
            id.as_str(),
            exit.as_str(),
            lines.as_str(),
            rows[k].command.as_str(),
            w,
        );
        k = k + 1;
    }
    let chars = chars_of(out.as_str());
    string_of(trim_end_chars(chars.as_slice()))
}

/// The directory that is told of a pane: where OSC 7 says it is, or else where
/// its process is, with the host and the user if they are known.
pub open spec fn place_text(
    osc_cwd: Option<Seq<char>>,
    process_cwd: Option<Seq<char>>,
    user: Option<Seq<char>>,
    host: Option<Seq<char>>,
) -> Option<Seq<char>> {
    let path = match osc_cwd {
        Some(p) => Some(p),
        None => process_cwd,
    };
    match path {
        None => None,
        Some(p) => match host {
            None => Some(p),
            Some(h) => match user {
                Some(u) => Some(u + "@"@ + h + ":"@ + p),
                None => Some(h + ":"@ + p),
            },
        },
    }
}

/// The directory that is told of a pane.
pub fn pane_place(
    osc_cwd: &Option<String>,
    process_cwd: &Option<String>,
    user: &Option<String>,
    host: &Option<String>,
) -> (r: Option<String>)
    ensures
        opt_text(r) == place_text(
            opt_text(*osc_cwd),
            opt_text(*process_cwd),
            opt_text(*user),
            opt_text(*host),
        ),
{
    let path: &str = match osc_cwd {
        Some(p) => p.as_str(),
        None => match process_cwd {
            Some(p) => p.as_str(),
            None => {
                return None;
            },
        },
    };
    match host {
        None => Some(path.to_owned()),
        Some(h) => {
            let mut out = match user {
                Some(u) => {
                    let mut s = u.as_str().to_owned();
                    s.append("@");
                    s.append(h.as_str());
                    s
                },
                None => h.as_str().to_owned(),
            };
            out.append(":");
            out.append(path);
            Some(out)
        },
    }
}

/// A pane's identifier and position.
#[derive(Debug, Clone, PartialEq, Eq)]
pub struct PanePosition {
    pub pane_id: String,
    pub x: i64,
    pub y: i64,
}

/// The position of the first pane with that identifier; the top left where there
/// is none.
pub open spec fn position_of(panes: Seq<PanePosition>, id: Seq<char>, i: int) -> (i64, i64)
    decreases panes.len() - i,
{
    if i < 0 || i >= panes.len() {
        (0, 0)
    } else if panes[i].pane_id@ == id {
        (panes[i].x, panes[i].y)
    } else {
        position_of(panes, id, i + 1)
    }
}

/// The positions of panes as seen from the pane of the caller.
pub fn relative_positions(panes: &Vec<PanePosition>, origin_pane: &str) -> (r: Vec<(i64, i64)>)
    requires
        forall|i: int|
            0 <= i < panes@.len() ==> 0 <= (#[trigger] panes@[i]).x && 0 <= panes@[i].y,
    ensures
        r@.len() == panes@.len(),
        ({
            let (ox, oy) = position_of(panes@, origin_pane@, 0);
            forall|i: int|
                0 <= i < r@.len() ==> (#[trigger] r@[i]).0 == panes@[i].x - ox && r@[i].1
                    == panes@[i].y - oy
        }),
{
    let n: usize = panes.len();
    let mut k: usize = 0;
    while k < n && !str_eq(panes[k].pane_id.as_str(), origin_pane)
        invariant
            k <= n == panes@.len(),
            position_of(panes@, origin_pane@, 0) == position_of(panes@, origin_pane@, k as int),
        decreases n - k,
    {
        k = k + 1;
    }
    let (ox, oy): (i64, i64) = if k < n {
        (panes[k].x, panes[k].y)
    } else {
        (0, 0)
    };
    let mut out: Vec<(i64, i64)> = Vec::new();
    let mut i: usize = 0;
    while i < n
        invariant
            i <= n == panes@.len(),
            0 <= ox,
            0 <= oy,
            forall|j: int|
                0 <= j < panes@.len() ==> 0 <= (#[trigger] panes@[j]).x && 0 <= panes@[j].y,
            out@.len() == i,
            forall|j: int|
                0 <= j < i ==> (#[trigger] out@[j]).0 == panes@[j].x - ox && out@[j].1
                    == panes@[j].y - oy,
        decreases n - i,
    {
        let p = &panes[i];
        assert(*p == panes@[i as int]);
        out.push((p.x - ox, p.y - oy));
        i = i + 1;
    }
    out
}

/// The text for what came of putting shell integration into a shell.
pub open spec fn inject_text(status: Seq<char>, message: Seq<char>, screen: Seq<char>) -> Seq<char> {
    if status == "active"@ {
        "OSC 133 injection successful — shell integration active."@
    } else if status == "already_active"@ {
        "OSC 133 already active — no injection needed. command_run should work."@
    } else if screen.len() == 0 {
        "OSC 133 injection status: "@ + status + " — "@ + message
    } else {
        "OSC 133 injection status: "@ + status + " — "@ + message + "\n\nScreen:\n"@ + screen
    }
}

/// The text for what came of putting shell integration into a shell.
pub fn format_inject_result(status: &str, message: &str, screen: &str) -> (t: String)
    ensures
        t@ == inject_text(status@, message@, screen@),
{
    if str_eq(status, "active") {
        return "OSC 133 injection successful — shell integration active.".to_owned();
    }
    if str_eq(status, "already_active") {
        return "OSC 133 already active — no injection needed. command_run should work.".to_owned();
    }
    let mut out = "OSC 133 injection status: ".to_owned();
    out.append(status);
    out.append(" — ");
    out.append(message);
    if !screen.is_empty() {
        out.append("\n\nScreen:\n");
        out.append(screen);
    }
    out
}

/// A text as Rust's `Debug` writes it: in quotes, with escapes.
pub uninterp spec fn debug_text(s: Seq<char>) -> Seq<char>;

/// `format!("{:?}", s)`: the text depends on `s` alone.
#[verifier::external_body]
fn debug_string(s: &str) -> (r: String)
    ensures
        r@ == debug_text(s@),
{
    format!("{:?}", s)
}

/// The text of a screen, after a hint on the command that runs in the pane, which
/// is given with its text in quotes.
pub open spec fn screen_text(id: int, quoted: Seq<char>, screen: Seq<char>) -> Seq<char> {
    "[Command "@ + decimal(id as nat) + " ("@ + quoted
        + ") is running. Use command_read(command_id="@ + decimal(id as nat)
        + ") for structured output with cursor tracking.]\n\n"@ + screen
}

/// The text of a screen, after a hint on the command that runs in the pane.
pub fn hinted_screen(id: u64, quoted: &str, screen: &str) -> (t: String)
    ensures
        t@ == screen_text(id as int, quoted@, screen@),
{
    let mut out = "[Command ".to_owned();
    append_number(&mut out, id);
    out.append(" (");
    out.append(quoted);
    out.append(") is running. Use command_read(command_id=");
    append_number(&mut out, id);
    out.append(") for structured output with cursor tracking.]\n\n");
    out.append(screen);
    out
}

/// The text for the screen of a pane; a command that runs in it comes with its
/// identifier and its text.
pub fn format_screen(active: Option<(u64, String)>, screen: &str) -> (t: String)
    ensures
        t@ == (match active {
            Some((id, command)) => screen_text(id as int, debug_text(command@), screen@),
            None => screen@,
        }),
{
    match active {
        Some((id, command)) => {
            let quoted = debug_string(command.as_str());
            hinted_screen(id, quoted.as_str(), screen)
        },
        None => screen.to_owned(),
    }
}

/// Digits with a sign tell which number they are of.
proof fn signed_decimal_tells(m: int, n: int)
    requires
        m != n,
    ensures
        signed_decimal(m) != signed_decimal(n),
{
    reveal_strlit("-");
    let a = if m < 0 {
        (-m) as nat
    } else {
        m as nat
    };
    let b = if n < 0 {
        (-n) as nat
    } else {
        n as nat
    };
    decimal_is_read(a);
    decimal_is_read(b);
    if signed_decimal(m) == signed_decimal(n) {
        if m < 0 && n >= 0 {
            assert(signed_decimal(m)[0] == '-');
            assert(is_digit(decimal(b)[0]));
        } else if m >= 0 && n < 0 {
            assert(signed_decimal(n)[0] == '-');
            assert(is_digit(decimal(a)[0]));
        } else if m < 0 {
            assert(signed_decimal(m).subrange(1, signed_decimal(m).len() as int) =~= decimal(a));
            assert(signed_decimal(n).subrange(1, signed_decimal(n).len() as int) =~= decimal(b));
        }
    }
}

/// Digits with a sign end with a digit.
proof fn signed_decimal_ends(n: int)
    ensures
        signed_decimal(n).len() > 0,
        !white_space(signed_decimal(n).last()),
{
    let a = if n < 0 {
        (-n) as nat
    } else {
        n as nat
    };
    decimal_is_read(a);
    let d = decimal(a);
    assert(is_digit(d[d.len() - 1]));
    assert(signed_decimal(n).last() == d.last());
}

/// Whether a text holds another.
pub open spec fn tells(text: Seq<char>, part: Seq<char>) -> bool {
    exists|i: int|
        0 <= i && i + part.len() <= text.len() && #[trigger] text.subrange(i, i + part.len()) == part
}

/// What ends with a character other than white space is not lost by trimming.
proof fn trimming_keeps(front: Seq<char>, part: Seq<char>, rest: Seq<char>)
    requires
        part.len() > 0,
        !white_space(part.last()),
    ensures
        trim_end(front + part + rest).len() >= front.len() + part.len(),
        trim_end(front + part + rest) == (front + part + rest).subrange(
            0,
            trim_end(front + part + rest).len() as int,
        ),
        tells(trim_end(front + part + rest), part),
    decreases rest.len(),
{
    let all = front + part + rest;
    if rest.len() > 0 && white_space(rest.last()) {
        trimming_keeps(front, part, rest.drop_last());
        assert(all.drop_last() =~= front + part + rest.drop_last());
        assert(all.last() == rest.last());
        trimmed_is_no_longer(all.drop_last());
        let t = trim_end(all);
        assert(all.drop_last().subrange(0, t.len() as int) =~= all.subrange(0, t.len() as int));
    } else {
        assert(all.last() == if rest.len() > 0 {
            rest.last()
        } else {
            part.last()
        });
        assert(all.subrange(0, all.len() as int) =~= all);
        assert(all.subrange(front.len() as int, front.len() + part.len() as int) =~= part);
        assert(tells(all, part));
    }
}

/// What a text holds, a text holds that is made of it and others.
proof fn part_is_told(text: Seq<char>, part: Seq<char>, inner: Seq<char>, at: int)
    requires
        tells(text, part),
        0 <= at,
        at + inner.len() <= part.len(),
        part.subrange(at, at + inner.len()) == inner,
    ensures
        tells(text, inner),
{
    let i = choose|i: int|
        0 <= i && i + part.len() <= text.len() && #[trigger] text.subrange(i, i + part.len())
            == part;
    assert(text.subrange(i + at, i + at + inner.len()) =~= inner) by {
        assert forall|k: int| 0 <= k < inner.len() implies text[i + at + k] == inner[k] by {
            assert(text.subrange(i, i + part.len())[at + k] == part[at + k]);
            assert(part.subrange(at, at + inner.len())[k] == part[at + k]);
        }
    }
}

/// The text for a command that has ended tells its exit code, whatever it is.
pub proof fn exit_code_is_told(r: CommandResult, is_run: bool, code: i64)
    requires
        r.status@ == "completed"@,
        r.exit_code == Some(code),
    ensures
        tells(result_text(r, is_run), "Exit code: "@ + signed_decimal(code as int)),
{
    reveal_strlit("\nExit code: ");
    reveal_strlit("Exit code: ");
    let front = header_text(r, is_run) + skipped_text(r) + body_text(r.output@);
    let line = "\nExit code: "@ + signed_decimal(code as int);
    let rest = footer_text(r, is_run).subrange(
        line.len() as int,
        footer_text(r, is_run).len() as int,
    );
    signed_decimal_ends(code as int);
    assert(line.last() == signed_decimal(code as int).last());
    assert(footer_text(r, is_run).subrange(0, line.len() as int) =~= line);
    assert(footer_text(r, is_run) =~= line + rest);
    assert(header_text(r, is_run) + skipped_text(r) + body_text(r.output@) + footer_text(r, is_run)
        =~= front + line + rest);
    trimming_keeps(front, line, rest);
    let inner = "Exit code: "@ + signed_decimal(code as int);
    assert(line.subrange(1, 1 + inner.len() as int) =~= inner);
    part_is_told(result_text(r, is_run), line, inner, 1);
}

/// Texts that differ in one part, and end with no white space behind it, differ.
proof fn spliced_texts_differ(front: Seq<char>, a: Seq<char>, b: Seq<char>, rest: Seq<char>)
    requires
        a != b,
        a.len() > 0 && !white_space(a.last()),
        b.len() > 0 ==> !white_space(b.last()),
        rest.len() > 0 ==> !white_space(rest.last()),
    ensures
        trim_end(front + a + rest) != trim_end(front + b + rest),
{
    let x = front + a + rest;
    let y = front + b + rest;
    if rest.len() > 0 {
        assert(x.last() == rest.last() && y.last() == rest.last());
    } else {
        assert(x.last() == a.last());
        if b.len() > 0 {
            assert(y.last() == b.last());
        } else {
            trimmed_is_no_longer(y);
        }
    }
    if x == y {
        assert(a.len() == b.len());
        assert forall|i: int| 0 <= i < a.len() implies a[i] == b[i] by {
            assert(x[front.len() + i] == a[i]);
            assert(y[front.len() + i] == b[i]);
        }
        assert(a =~= b);
    }
}

/// What follows the exit code in the text for a command that has ended.
spec fn after_exit(r: CommandResult, is_run: bool) -> Seq<char> {
    completed_text(r, is_run).subrange(
        exit_text(r).len() as int,
        completed_text(r, is_run).len() as int,
    )
}

/// The text for a command that has ended, before trimming.
proof fn completed_parts(r: CommandResult, is_run: bool)
    requires
        r.status@ == "completed"@,
    ensures
        result_text(r, is_run) == trim_end(
            header_text(r, is_run) + skipped_text(r) + body_text(r.output@) + exit_text(r)
                + after_exit(r, is_run),
        ),
{
    let front = header_text(r, is_run) + skipped_text(r) + body_text(r.output@);
    let e = exit_text(r);
    let all = completed_text(r, is_run);
    assert(all.subrange(0, e.len() as int) =~= e);
    assert(all =~= e + after_exit(r, is_run));
    assert(front + all =~= front + e + after_exit(r, is_run));
}

/// What follows the exit code does not depend on it.
proof fn after_exit_is_apart(a: CommandResult, b: CommandResult, is_run: bool)
    requires
        b == (CommandResult { exit_code: b.exit_code, ..a }),
    ensures
        after_exit(a, is_run) == after_exit(b, is_run),
{
    let x = completed_text(a, is_run);
    let y = completed_text(b, is_run);
    assert(matches_text(a) == matches_text(b));
    if let Some(id) = a.command_id {
        assert(filter_text(a, id as nat) == filter_text(b, id as nat));
    }
    assert(after_exit(a, is_run) =~= after_exit(b, is_run));
}

/// The texts for two commands that have ended and differ in the exit code alone
/// differ: in the code itself, or in whether there is one.
pub proof fn exit_codes_differ_in_text(a: CommandResult, b: CommandResult, is_run: bool)
    requires
        a.status@ == "completed"@,
        a.exit_code is Some,
        a.exit_code != b.exit_code,
        b == (CommandResult { exit_code: b.exit_code, ..a }),
    ensures
        result_text(a, is_run) != result_text(b, is_run),
{
    reveal_strlit("\nExit code: ");
    reveal_strlit("");
    let front = header_text(a, is_run) + skipped_text(a) + body_text(a.output@);
    let ea = exit_text(a);
    let eb = exit_text(b);
    let code = a.exit_code->0;
    let lead = "\nExit code: "@;
    signed_decimal_ends(code as int);
    assert(ea == lead + signed_decimal(code as int));
    assert(ea.last() == signed_decimal(code as int).last());
    if let Some(other) = b.exit_code {
        signed_decimal_ends(other as int);
        signed_decimal_tells(code as int, other as int);
        assert(eb == lead + signed_decimal(other as int));
        assert(eb.last() == signed_decimal(other as int).last());
        assert(ea.subrange(lead.len() as int, ea.len() as int) =~= signed_decimal(code as int));
        assert(eb.subrange(lead.len() as int, eb.len() as int) =~= signed_decimal(other as int));
    }
    completed_rest_ends(a, is_run);
    completed_parts(a, is_run);
    completed_parts(b, is_run);
    after_exit_is_apart(a, b, is_run);
    spliced_texts_differ(front, ea, eb, after_exit(a, is_run));
}

/// Trimming does not make a text longer.
proof fn trimmed_is_no_longer(s: Seq<char>)
    ensures
        trim_end(s).len() <= s.len(),
    decreases s.len(),
{
    if s.len() > 0 && white_space(s.last()) {
        trimmed_is_no_longer(s.drop_last());
    }
}

/// What follows the exit code, if anything does, ends with a bracket.
proof fn completed_rest_ends(r: CommandResult, is_run: bool)
    ensures
        ({
            let rest = completed_text(r, is_run).subrange(
                exit_text(r).len() as int,
                completed_text(r, is_run).len() as int,
            );
            rest.len() > 0 ==> !white_space(rest.last())
        }),
{
    reveal_strlit("");
    reveal_strlit(" lines.]");
    reveal_strlit(" lines).]");
    reveal_strlit(", search=\"different pattern\") to try again.]");
    reveal_strlit(
        ") with head, tail, or search for different views of the same command output.]",
    );
    let all = completed_text(r, is_run);
    let n = exit_text(r).len();
    let rest = all.subrange(n as int, all.len() as int);
    if rest.len() > 0 {
        assert(rest.last() == all.last());
        let m = matches_text(r);
        assert(m.len() > 0 ==> m.last() == ']');
        if let Some(id) = r.command_id {
            let f = filter_text(r, id as nat);
            assert(f.len() > 0 ==> f.last() == ']');
        }
        assert(all.last() == ']');
    }
}

/// The text for a command shows its output, as far as that does not end with
/// white space, and the command itself where it was run.
pub proof fn output_is_told(r: CommandResult, is_run: bool)
    ensures
        r.output@.len() > 0 && !white_space(r.output@.last()) ==> tells(
            result_text(r, is_run),
            r.output@,
        ),
        is_run && r.command@.len() > 0 && !white_space(r.command@.last()) ==> tells(
            result_text(r, is_run),
            "$ "@ + r.command@,
        ),
{
    let out = r.output@;
    let body = body_text(out);
    let footer = footer_text(r, is_run);
    let head = header_text(r, is_run) + skipped_text(r);
    let text = header_text(r, is_run) + skipped_text(r) + body + footer;
    if out.len() > 0 && !white_space(out.last()) {
        assert(out.last() != '\n');
        let rest = "\n"@ + footer;
        assert(text =~= head + out + rest);
        trimming_keeps(head, out, rest);
    }
    if is_run && r.command@.len() > 0 && !white_space(r.command@.last()) {
        let line = "$ "@ + r.command@;
        let rest = "\n"@ + skipped_text(r) + body + footer;
        assert(text =~= Seq::<char>::empty() + line + rest);
        assert(line.last() == r.command@.last());
        trimming_keeps(Seq::empty(), line, rest);
    }
}

/// What a part tells, the whole tells, where the part is followed by something
/// other than white space or ends so.
proof fn part_survives(front: Seq<char>, part: Seq<char>, rest: Seq<char>, inner: Seq<char>, at: int)
    requires
        part.len() > 0,
        !white_space(part.last()),
        0 <= at,
        at + inner.len() <= part.len(),
        part.subrange(at, at + inner.len()) == inner,
    ensures
        tells(trim_end(front + part + rest), inner),
{
    trimming_keeps(front, part, rest);
    part_is_told(trim_end(front + part + rest), part, inner, at);
}

/// The text for a search in a command that has ended tells how many lines matched,
/// and of how many.
pub proof fn matches_are_told(r: CommandResult, is_run: bool, n: u64)
    requires
        r.status@ == "completed"@,
        r.search_matches == Some(n),
    ensures
        tells(
            result_text(r, is_run),
            decimal(n as nat) + " matches in "@ + decimal(r.total_lines as nat) + " lines"@,
        ),
{
    reveal_strlit("\n[");
    reveal_strlit(" lines.]");
    reveal_strlit(" lines");
    let front = header_text(r, is_run) + skipped_text(r) + body_text(r.output@) + exit_text(r);
    let line = matches_text(r);
    let all = completed_text(r, is_run);
    let lead = exit_text(r) + line;
    let rest = all.subrange(lead.len() as int, all.len() as int);
    assert(all.subrange(0, lead.len() as int) =~= lead);
    assert(all =~= exit_text(r) + line + rest);
    assert(header_text(r, is_run) + skipped_text(r) + body_text(r.output@) + all =~= front + line
        + rest);
    assert(line.last() == ']');
    let inner = decimal(n as nat) + " matches in "@ + decimal(r.total_lines as nat) + " lines"@;
    assert(line.subrange(2, 2 + inner.len() as int) =~= inner);
    part_survives(front, line, rest, inner, 2);
}

/// The text for a command that runs tells that it does, and its identifier.
pub proof fn running_is_told(r: CommandResult, is_run: bool, id: u64)
    requires
        r.status@ == "running"@,
        r.command_id == Some(id),
    ensures
        tells(result_text(r, is_run), "ommand still running (id="@ + decimal(id as nat) + ")"@),
{
    reveal_strlit("completed");
    reveal_strlit("running");
    assert("completed"@.len() == 9 && "running"@.len() == 7);
    reveal_strlit("\n[No new output. Command still running (id=");
    reveal_strlit("\n[Command still running (id=");
    reveal_strlit("ommand still running (id=");
    reveal_strlit("). Increase timeout_secs or use press_key C-c to cancel.]");
    reveal_strlit("). ");
    reveal_strlit(")");
    let front = header_text(r, is_run) + skipped_text(r) + body_text(r.output@);
    let foot = running_text(r);
    let inner = "ommand still running (id="@ + decimal(id as nat) + ")"@;
    let lead = if r.output@.len() == 0 {
        "\n[No new output. Command still running (id="@
    } else {
        "\n[Command still running (id="@
    };
    let part = lead + decimal(id as nat) + ")"@;
    let rest = foot.subrange(part.len() as int, foot.len() as int);
    assert(foot.subrange(0, part.len() as int) =~= part);
    assert(foot =~= part + rest);
    assert(front + foot =~= front + part + rest);
    let at = part.len() - inner.len();
    assert(part.subrange(at, at + inner.len() as int) =~= inner);
    assert(part.last() == ')');
    part_survives(front, part, rest, inner, at);
}

/// The text for a history tells of each command its exit code, its number of lines
/// and its text, in one row and in that order, with no more than spaces between.
pub proof fn history_is_told(rows: Seq<HistoryRow>, k: int) -> (gap: nat)
    requires
        0 <= k < rows.len(),
        rows[k].exit_code is Some,
        rows[k].output_lines is Some,
        rows[k].command@.len() > 0,
        !white_space(rows[k].command@.last()),
    ensures
        tells(
            history_text(rows),
            signed_decimal(rows[k].exit_code->0 as int) + "  "@ + Seq::new(gap, |i: int| ' ')
                + decimal(rows[k].output_lines->0 as nat) + "  "@ + rows[k].command@,
        ),
{
    let n = rows.len() as int;
    let w = widths(rows, n);
    let r = cells(rows[k]);
    let gap: nat = if r.lines.len() < w.2 {
        (w.2 - r.lines.len()) as nat
    } else {
        0
    };
    let inner = signed_decimal(rows[k].exit_code->0 as int) + "  "@ + Seq::new(gap, |i: int| ' ')
        + decimal(rows[k].output_lines->0 as nat) + "  "@ + rows[k].command@;
    let (front, rest) = row_in_table(rows, w, n, k);
    let row = row_text(r, w);
    let before = padded(r.id, w.0) + "  "@ + Seq::new(
        if r.exit.len() < w.1 {
            (w.1 - r.exit.len()) as nat
        } else {
            0
        },
        |i: int| ' ',
    );
    assert(row =~= before + inner + "\n"@);
    let table = table_text(rows, w, n);
    assert(table =~= (front + before) + inner + ("\n"@ + rest));
    assert(inner.last() == rows[k].command@.last());
    trimming_keeps(front + before, inner, "\n"@ + rest);
    gap
}

/// A row stands in the table.
proof fn row_in_table(rows: Seq<HistoryRow>, w: (int, int, int), n: int, k: int) -> (r: (
    Seq<char>,
    Seq<char>,
))
    requires
        0 <= k < n <= rows.len(),
    ensures
        table_text(rows, w, n) == r.0 + row_text(cells(rows[k]), w) + r.1,
    decreases n,
{
    if k == n - 1 {
        let front = table_text(rows, w, n - 1);
        let row = row_text(cells(rows[k]), w);
        assert(front + row =~= front + row + Seq::<char>::empty());
        (front, Seq::empty())
    } else {
        let (front, rest) = row_in_table(rows, w, n - 1, k);
        let more = row_text(cells(rows[n - 1]), w);
        let row = row_text(cells(rows[k]), w);
        assert(front + row + rest + more =~= front + row + (rest + more));
        (front, rest + more)
    }
}

/// The place that is told of a pane holds its directory: the one that the shell
/// told, or else that of its process; and the host where it is known.
pub proof fn place_is_told(
    osc_cwd: Option<Seq<char>>,
    process_cwd: Option<Seq<char>>,
    user: Option<Seq<char>>,
    host: Option<Seq<char>>,
)
    ensures
        osc_cwd is None && process_cwd is None <==> place_text(osc_cwd, process_cwd, user, host)
            is None,
        osc_cwd is Some && host is None ==> place_text(osc_cwd, process_cwd, user, host) == osc_cwd,
        osc_cwd is None && host is None ==> place_text(osc_cwd, process_cwd, user, host)
            == process_cwd,
        host is Some && osc_cwd is Some ==> has_end(
            place_text(osc_cwd, process_cwd, user, host)->0,
            (host->0) + ":"@ + (osc_cwd->0),
        ),
        host is Some && user is Some && osc_cwd is Some ==> place_text(
            osc_cwd,
            process_cwd,
            user,
            host,
        ) == Some((user->0) + "@"@ + (host->0) + ":"@ + (osc_cwd->0)),
{
    if host is Some && osc_cwd is Some {
        let t = place_text(osc_cwd, process_cwd, user, host)->0;
        let e = (host->0) + ":"@ + (osc_cwd->0);
        assert(t.subrange(t.len() - e.len(), t.len() as int) =~= e);
    }
}

/// Whether a text ends with another.
pub open spec fn has_end(text: Seq<char>, end: Seq<char>) -> bool {
    end.len() <= text.len() && text.subrange(text.len() - end.len(), text.len() as int) == end
}

/// The columns of the history line up: in every line, the heading among them, the
/// command starts at the same place.
pub proof fn columns_line_up(rows: Seq<HistoryRow>, k: int)
    requires
        0 <= k < rows.len(),
    ensures
        ({
            let w = widths(rows, rows.len() as int);
            &&& row_text(cells(rows[k]), w).len() - rows[k].command@.len() == row_text(
                heading(),
                w,
            ).len() - heading().command.len()
            &&& w.0 >= cells(rows[k]).id.len()
            &&& w.1 >= cells(rows[k]).exit.len()
            &&& w.2 >= cells(rows[k]).lines.len()
        }),
{
    widths_suffice(rows, rows.len() as int, k);
}

/// The widths are those of the widest cells.
proof fn widths_suffice(rows: Seq<HistoryRow>, n: int, k: int)
    requires
        0 <= k < n <= rows.len() || k == -1 && 0 <= n <= rows.len(),
    ensures
        widths(rows, n).0 >= heading().id.len(),
        widths(rows, n).1 >= heading().exit.len(),
        widths(rows, n).2 >= heading().lines.len(),
        k >= 0 ==> widths(rows, n).0 >= cells(rows[k]).id.len() && widths(rows, n).1 >= cells(
            rows[k],
        ).exit.len() && widths(rows, n).2 >= cells(rows[k]).lines.len(),
    decreases n,
{
    if n > 0 {
        widths_suffice(
            rows,
            n - 1,
            if k < n - 1 {
                k
            } else {
                -1
            },
        );
    }
}

/// The position that others are told from is that of the pane with the identifier.
pub proof fn origin_is_the_pane(panes: Seq<PanePosition>, id: Seq<char>, i: int, k: int)
    requires
        0 <= i <= k < panes.len(),
        panes[k].pane_id@ == id,
        forall|j: int| i <= j < k ==> (#[trigger] panes[j]).pane_id@ != id,
    ensures
        position_of(panes, id, i) == (panes[k].x, panes[k].y),
    decreases k - i,
{
    if i < k {
        assert(panes[i].pane_id@ != id);
        origin_is_the_pane(panes, id, i + 1, k);
    }
}

/// What came of putting shell integration into a shell is told, with the reason and
/// the screen where it did not work.
pub proof fn injection_is_told(status: Seq<char>, message: Seq<char>, screen: Seq<char>)
    requires
        status != "active"@,
        status != "already_active"@,
    ensures
        tells(inject_text(status, message, screen), status),
        tells(inject_text(status, message, screen), message),
        screen.len() > 0 ==> tells(inject_text(status, message, screen), screen),
        inject_text("active"@, message, screen) != inject_text("already_active"@, message, screen),
{
    let a = "OSC 133 injection status: "@;
    let b = " — "@;
    let c = if screen.len() > 0 {
        "\n\nScreen:\n"@ + screen
    } else {
        Seq::empty()
    };
    let text = inject_text(status, message, screen);
    assert(text =~= a + status + (b + message + c));
    middle_is_told(a, status, b + message + c);
    assert(text =~= (a + status + b) + message + c);
    middle_is_told(a + status + b, message, c);
    if screen.len() > 0 {
        let none = Seq::<char>::empty();
        assert(text =~= (a + status + b + message + "\n\nScreen:\n"@) + screen + none);
        middle_is_told(a + status + b + message + "\n\nScreen:\n"@, screen, none);
    }
    reveal_strlit("OSC 133 injection successful — shell integration active.");
    reveal_strlit("OSC 133 already active — no injection needed. command_run should work.");
    reveal_strlit("active");
    reveal_strlit("already_active");
    assert("active"@.len() != "already_active"@.len());
    assert("OSC 133 injection successful — shell integration active."@[8] == 'i');
    assert("OSC 133 already active — no injection needed. command_run should work."@[8] == 'a');
}

/// Texts one after the other.
pub open spec fn flat(parts: Seq<Seq<char>>) -> Seq<char>
    decreases parts.len(),
{
    if parts.len() == 0 {
        Seq::empty()
    } else {
        flat(parts.drop_last()) + parts.last()
    }
}

/// One text more.
pub(crate) proof fn flat_push(parts: Seq<Seq<char>>, part: Seq<char>)
    ensures
        flat(parts.push(part)) == flat(parts) + part,
{
    assert(parts.push(part).drop_last() =~= parts);
}

/// Each of the texts is told.
pub(crate) proof fn parts_are_told(parts: Seq<Seq<char>>, i: int)
    requires
        0 <= i < parts.len(),
    ensures
        tells(flat(parts), parts[i]),
    decreases parts.len(),
{
    let front = flat(parts.drop_last());
    let last = parts.last();
    let none = Seq::<char>::empty();
    if i == parts.len() - 1 {
        assert(front + last + none =~= front + last);
        middle_is_told(front, last, none);
    } else {
        let part = parts.drop_last()[i];
        parts_are_told(parts.drop_last(), i);
        let k = choose|k: int|
            0 <= k && k + part.len() <= front.len() && #[trigger] front.subrange(k, k + part.len())
                == part;
        assert((front + last).subrange(k, k + part.len()) =~= front.subrange(k, k + part.len()));
    }
}

/// What stands between two texts is told.
pub(crate) proof fn middle_is_told(front: Seq<char>, part: Seq<char>, rest: Seq<char>)
    ensures
        tells(front + part + rest, part),
{
    let text = front + part + rest;
    let i = front.len() as int;
    assert(text.subrange(i, i + part.len()) =~= part);
}

/// A hint about lines survives what stands around it.
proof fn hint_is_told(front: Seq<char>, n: int, what: Seq<char>, rest: Seq<char>)
    requires
        n > 0,
    ensures
        tells(
            trim_end(front + lines_hint(n, what) + rest),
            "<"@ + decimal(n as nat) + " lines "@ + what + ">"@,
        ),
{
    reveal_strlit(">\n");
    reveal_strlit(">");
    let part = "<"@ + decimal(n as nat) + " lines "@ + what + ">"@;
    let hint = lines_hint(n, what);
    assert(hint.subrange(0, part.len() as int) =~= part);
    let end = hint.subrange(part.len() as int, hint.len() as int);
    assert(hint =~= part + end);
    assert(front + hint + rest =~= front + part + (end + rest));
    assert(part.last() == '>');
    trimming_keeps(front, part, end + rest);
}

/// The text for a command tells how many lines are left out: those that were read
/// before, and those that are not shown.
pub proof fn skipped_lines_are_told(r: CommandResult, is_run: bool)
    ensures
        r.read_cursor > 0 && r.lines_skipped > 0 ==> tells(
            result_text(r, is_run),
            "<"@ + decimal(
                if r.read_cursor < r.lines_skipped {
                    r.read_cursor as nat
                } else {
                    r.lines_skipped as nat
                },
            ) + " lines "@ + "already read"@ + ">"@,
        ),
        r.lines_skipped > r.read_cursor ==> tells(
            result_text(r, is_run),
            "<"@ + decimal((r.lines_skipped - r.read_cursor) as nat) + " lines "@ + "not shown"@
                + ">"@,
        ),
{
    let head = header_text(r, is_run);
    let body = body_text(r.output@);
    let foot = footer_text(r, is_run);
    let n = already_read(r);
    let more = r.lines_skipped - n;
    let first = lines_hint(n, "already read"@);
    let second = lines_hint(more, "not shown"@);
    let text = head + (first + second) + body + foot;
    assert(text =~= head + first + (second + body + foot));
    assert(text =~= head + first + second + (body + foot));
    if n > 0 {
        hint_is_told(head, n, "already read"@, second + body + foot);
    }
    if more > 0 {
        hint_is_told(head + first, more, "not shown"@, body + foot);
    }
}

/// The text for a command that was run and has ended says so where its output was
/// filtered, with the number of all its lines, or where a search found nothing; the
/// text for a read of one says so where there was nothing left to read.
pub proof fn filtered_output_is_told(r: CommandResult, is_run: bool, id: u64)
    requires
        r.status@ == "completed"@,
        r.command_id == Some(id),
    ensures
        is_run && r.search_matches == Some(0u64) ==> tells(
            result_text(r, is_run),
            "[Search had no matches. Use command_read(command_id="@ + decimal(id as nat),
        ),
        is_run && r.search_matches != Some(0u64) && r.lines_skipped > 0 ==> tells(
            result_text(r, is_run),
            "[Output filtered ("@ + decimal(r.total_lines as nat) + " lines total)"@,
        ),
        !is_run && r.output@.len() == 0 ==> tells(
            result_text(r, is_run),
            "[Command "@ + decimal(id as nat) + " completed. No unread output."@,
        ),
{
    let front = header_text(r, is_run) + skipped_text(r) + body_text(r.output@) + exit_text(r)
        + matches_text(r);
    let all = header_text(r, is_run) + skipped_text(r) + body_text(r.output@) + footer_text(
        r,
        is_run,
    );
    let d = decimal(id as nat);
    let total = decimal(r.total_lines as nat);
    reveal_strlit("\n[Search had no matches. Use command_read(command_id=");
    reveal_strlit("[Search had no matches. Use command_read(command_id=");
    reveal_strlit(", search=\"different pattern\") to try again.]");
    reveal_strlit("\n[Output filtered (");
    reveal_strlit("[Output filtered (");
    reveal_strlit(" lines total). Use command_read(command_id=");
    reveal_strlit(" lines total)");
    reveal_strlit(
        ") with head, tail, or search for different views of the same command output.]",
    );
    reveal_strlit("\n[Command ");
    reveal_strlit("[Command ");
    reveal_strlit(
        " completed. No unread output. Use head, tail, or search to review full output (",
    );
    reveal_strlit(" completed. No unread output.");
    reveal_strlit(" lines).]");
    let none = Seq::<char>::empty();
    let part = if is_run {
        filter_text(r, id as nat)
    } else {
        "\n[Command "@ + d
            + " completed. No unread output. Use head, tail, or search to review full output ("@
            + total + " lines).]"@
    };
    if is_run && r.search_matches == Some(0u64) {
        let inner = "[Search had no matches. Use command_read(command_id="@ + d;
        assert(all =~= front + part + none);
        assert(part.subrange(1, 1 + inner.len() as int) =~= inner);
        assert(part.last() == ']');
        part_survives(front, part, none, inner, 1);
    } else if is_run && r.lines_skipped > 0 {
        let inner = "[Output filtered ("@ + total + " lines total)"@;
        assert(all =~= front + part + none);
        assert(part.subrange(1, 1 + inner.len() as int) =~= inner);
        assert(part.last() == ']');
        part_survives(front, part, none, inner, 1);
    } else if !is_run && r.output@.len() == 0 {
        let inner = "[Command "@ + d + " completed. No unread output."@;
        assert(all =~= front + part + none);
        assert(part.subrange(1, 1 + inner.len() as int) =~= inner);
        assert(part.last() == ']');
        part_survives(front, part, none, inner, 1);
    }
}

} // verus!
