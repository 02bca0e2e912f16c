//! Commands that run in panes: what is answered while one runs and once it is
//! done.

use crate::daemon::read::{
    apply_read_params, cursor_after, enough, has_enough, matches_in, selected, window, ParamsModel,
    ReadParams,
};
use crate::daemon::rpc::{RpcError, INVALID_PARAMS};
use crate::mcp::{middle_is_told, tells};
use crate::pane::state::{CommandRecord, PaneState, RecordModel, StateModel};
use crate::text::{decimal, decimal_string, join, joined, lines_of, opt_text, split_lines};
use vstd::prelude::*;
use vstd::string::StringExecFns;

verus! {

/// Whether a command has ended.
#[derive(Debug, Clone, Copy, PartialEq, Eq, Structural)]
pub enum CommandStatus {
    Completed,
    Running,
}

/// What is answered of a command.
#[derive(Debug, Clone, PartialEq, Eq)]
pub struct CommandReply {
    pub command_id: Option<u64>,
    pub command: Option<String>,
    pub status: CommandStatus,
    pub exit_code: Option<i32>,
    pub output: String,
    pub total_lines: usize,
    pub lines_skipped: Option<usize>,
    pub search_matches: Option<usize>,
}

/// What is answered of a command, mathematically.
pub ghost struct ReplyModel {
    pub command_id: Option<int>,
    pub command: Option<Seq<char>>,
    pub status: CommandStatus,
    pub exit_code: Option<i32>,
    pub output: Seq<char>,
    pub total_lines: int,
    pub lines_skipped: Option<int>,
    pub search_matches: Option<int>,
}

/// A number, mathematically.
pub open spec fn opt_int(n: Option<usize>) -> Option<int> {
    match n {
        Some(v) => Some(v as int),
        None => None,
    }
}

impl View for CommandReply {
    type V = ReplyModel;

    open spec fn view(&self) -> ReplyModel {
        ReplyModel {
            command_id: match self.command_id {
                Some(id) => Some(id as int),
                None => None,
            },
            command: opt_text(self.command),
            status: self.status,
            exit_code: self.exit_code,
            output: self.output@,
            total_lines: self.total_lines as int,
            lines_skipped: opt_int(self.lines_skipped),
            search_matches: opt_int(self.search_matches),
        }
    }
}

/// What is answered of a record: with the exit code or without, with the size of
/// what is not shown and the number of matches or without.
pub open spec fn reply_of(r: RecordModel, p: ParamsModel, with_code: bool, full: bool) -> ReplyModel {
    let lines = lines_of(r.output);
    ReplyModel {
        command_id: Some(r.id),
        command: Some(r.command),
        status: if r.completed {
            CommandStatus::Completed
        } else {
            CommandStatus::Running
        },
        exit_code: if with_code {
            r.exit_code
        } else {
            None
        },
        output: joined(selected(lines, p, r.read_cursor), "\n"@),
        total_lines: lines.len() as int,
        lines_skipped: if full {
            Some(window(p, lines.len() as int, r.read_cursor).0)
        } else {
            None
        },
        search_matches: if full {
            matches_in(lines, p, r.read_cursor)
        } else {
            None
        },
    }
}

/// The record once it was read.
pub open spec fn record_read(r: RecordModel, p: ParamsModel) -> RecordModel {
    RecordModel {
        read_cursor: cursor_after(p, lines_of(r.output).len() as int, r.read_cursor),
        ..r
    }
}

/// Answer with what is asked for of a record.
fn read_record(record: &mut CommandRecord, params: &ReadParams, with_code: bool, full: bool) -> (r:
    CommandReply)
    ensures
        r@ == reply_of(old(record)@, params@, with_code, full),
        final(record)@ == record_read(old(record)@, params@),
{
    let mut cursor: usize = record.read_cursor;
    let result = apply_read_params(record.output.as_str(), &mut cursor, params);
    record.read_cursor = cursor;
    CommandReply {
        command_id: Some(record.id),
        command: Some(record.command.as_str().to_owned()),
        status: if record.completed {
            CommandStatus::Completed
        } else {
            CommandStatus::Running
        },
        exit_code: if with_code {
            record.exit_code
        } else {
            None
        },
        output: join(result.lines.as_slice(), "\n"),
        total_lines: result.total_lines,
        lines_skipped: if full {
            Some(result.skipped)
        } else {
            None
        },
        search_matches: if full {
            result.matched
        } else {
            None
        },
    }
}

/// The place of the command that is asked for: the one with that identifier, or
/// else the newest.
pub open spec fn target_of(s: StateModel, command_id: Option<u64>) -> Option<int> {
    match command_id {
        Some(id) => s.find_id(id as int, 0),
        None => if s.commands.len() > 0 {
            Some(0)
        } else {
            None
        },
    }
}

/// The text for a command that is not there.
pub open spec fn missing_command(command_id: Option<u64>) -> Seq<char> {
    match command_id {
        Some(id) => "Command "@ + decimal(id as nat) + " not found"@,
        None => "No commands in history"@,
    }
}

/// Whether a read is answered at once: the command has ended, all of its output
/// is asked for, what is waited for is there, or the time is up.
pub open spec fn is_ready(r: RecordModel, p: ParamsModel, expired: bool) -> bool {
    r.completed || expired || (p.next is None && p.head is None && p.tail is None) || enough(
        lines_of(r.output),
        p,
        r.read_cursor,
    )
}

/// What is answered of a record once it is ready.
pub open spec fn read_reply(r: RecordModel, p: ParamsModel, expired: bool) -> ReplyModel {
    let full = r.completed || p.next is None;
    reply_of(r, p, full || expired, full)
}

/// The state once the record at a place was read.
pub open spec fn state_read(s: StateModel, i: int, p: ParamsModel) -> StateModel {
    StateModel { commands: s.commands.update(i, record_read(s.commands[i], p)), ..s }
}

/// Look whether a read can be answered: `None` where it has to wait.
pub fn read_poll(
    state: &mut PaneState,
    command_id: Option<u64>,
    params: &ReadParams,
    expired: bool,
) -> (r: Result<Option<CommandReply>, RpcError>)
    ensures
        match target_of(old(state)@, command_id) {
            None => r matches Err(e) && e.is(INVALID_PARAMS, missing_command(command_id))
                && final(state)@ == old(state)@,
            Some(i) => if is_ready(old(state)@.commands[i], params@, expired) {
                r matches Ok(Some(reply)) && reply@ == read_reply(
                    old(state)@.commands[i],
                    params@,
                    expired,
                ) && final(state)@ == state_read(old(state)@, i, params@)
            } else {
                r matches Ok(None) && final(state)@ == old(state)@
            },
        },
{
    let id: u64 = match command_id {
        Some(id) => id,
        None => match newest_id(state) {
            Some(id) => id,
            None => {
                return Err(RpcError::invalid_params("No commands in history".to_owned()));
            },
        },
    };
    let ready = match state.command_by_id(id) {
        Some(c) => c.completed || expired || (params.next.is_none() && params.head.is_none()
            && params.tail.is_none()) || has_enough(c.output.as_str(), c.read_cursor, params),
        None => {
            let mut message = "Command ".to_owned();
            let digits = decimal_string(id);
            message.append(digits.as_str());
            message.append(" not found");
            return Err(RpcError::invalid_params(message));
        },
    };
    if !ready {
        return Ok(None);
    }
    match state.command_by_id_mut(id) {
        Some(c) => {
            let full = c.completed || params.next.is_none();
            Ok(Some(read_record(c, params, full || expired, full)))
        },
        None => Ok(None),
    }
}

/// The identifier of the newest command.
pub fn newest_id(state: &PaneState) -> (r: Option<u64>)
    ensures
        match r {
            Some(id) => state@.commands.len() > 0 && state@.commands[0].id == id && state@.find_id(
                id as int,
                0,
            ) == Some(0int),
            None => state@.commands.len() == 0,
        },
{
    if state.commands.len() > 0 {
        assert(state@.commands[0] == state.commands@[0]@);
        Some(state.commands[0].id)
    } else {
        None
    }
}

/// What a request to run a command is answered while it waits.
#[derive(Debug, Clone, PartialEq, Eq)]
pub enum RunStep {
    /// Look again later.
    Wait,
    /// The answer.
    Reply(CommandReply),
    /// The command was sent, and no marker has come.
    NoMarkers,
}

/// Whether a newer command than `id_before` is in the history.
pub open spec fn has_new(s: StateModel, id_before: int) -> bool {
    s.commands.len() > 0 && s.commands[0].id > id_before
}

/// The answer while a command runs whose record has not come.
pub open spec fn nothing_yet() -> ReplyModel {
    ReplyModel {
        command_id: None,
        command: None,
        status: CommandStatus::Running,
        exit_code: None,
        output: Seq::empty(),
        total_lines: 0,
        lines_skipped: None,
        search_matches: None,
    }
}

/// Look whether a request to run a command can be answered. First its record is
/// waited for, then its end. A record newer than `id_before` is the command's.
/// `seen` tells whether the record has come; `marker_due` and `completion_due`
/// whether the time for each of the two is up.
pub fn run_poll(
    state: &mut PaneState,
    id_before: u64,
    seen: &mut bool,
    marker_due: bool,
    completion_due: bool,
    params: &ReadParams,
) -> (r: RunStep)
    ensures
        ({
            let s = old(state)@;
            let new = has_new(s, id_before as int);
            let record = s.commands[0];
            &&& *final(seen) == (*old(seen) || new)
            &&& if new && record.completed {
                r matches RunStep::Reply(reply) && reply@ == reply_of(record, params@, true, true)
                    && final(state)@ == state_read(s, 0, params@)
            } else if new && (completion_due || enough(
                lines_of(record.output),
                params@,
                record.read_cursor,
            )) {
                r matches RunStep::Reply(reply) && reply@ == reply_of(record, params@, false, false)
                    && final(state)@ == state_read(s, 0, params@)
            } else {
                &&& final(state)@ == s
                &&& if !new && !*old(seen) && marker_due {
                    r is NoMarkers
                } else if completion_due {
                    r matches RunStep::Reply(reply) && reply@ == nothing_yet()
                } else {
                    r is Wait
                }
            }
        }),
{
    let newest = newest_id(state);
    if let Some(id) = newest {
        if id > id_before {
            *seen = true;
            let (completed, ready) = match state.command_by_id(id) {
                Some(c) => (
                    c.completed,
                    completion_due || has_enough(c.output.as_str(), c.read_cursor, params),
                ),
                None => (false, false),
            };
            if completed || ready {
                if let Some(c) = state.command_by_id_mut(id) {
                    return RunStep::Reply(read_record(c, params, completed, completed));
                }
            }
            return RunStep::Wait;
        }
    }
    if !*seen && marker_due {
        RunStep::NoMarkers
    } else if completion_due {
        RunStep::Reply(
            CommandReply {
                command_id: None,
                command: None,
                status: CommandStatus::Running,
                exit_code: None,
                output: String::new(),
                total_lines: 0,
                lines_skipped: None,
                search_matches: None,
            },
        )
    } else {
        RunStep::Wait
    }
}

/// A command of the history.
#[derive(Debug, Clone, PartialEq, Eq)]
pub struct HistoryEntry {
    pub command_id: u64,
    pub command: String,
    pub exit_code: Option<i32>,
    pub output_lines: usize,
}

/// A command of the history, mathematically.
pub ghost struct HistoryModel {
    pub command_id: int,
    pub command: Seq<char>,
    pub exit_code: Option<i32>,
    pub output_lines: int,
}

impl View for HistoryEntry {
    type V = HistoryModel;

    open spec fn view(&self) -> HistoryModel {
        HistoryModel {
            command_id: self.command_id as int,
            command: self.command@,
            exit_code: self.exit_code,
            output_lines: self.output_lines as int,
        }
    }
}

/// What the history tells of a record.
pub open spec fn history_entry(r: RecordModel) -> HistoryModel {
    HistoryModel {
        command_id: r.id,
        command: r.command,
        exit_code: r.exit_code,
        output_lines: lines_of(r.output).len() as int,
    }
}

/// Number of entries in a history of at most `count`.
pub open spec fn history_len(s: StateModel, count: int) -> int {
    if count < s.commands.len() {
        count
    } else {
        s.commands.len() as int
    }
}

/// The most recent commands, the newest first.
pub fn command_history(state: &PaneState, count: usize) -> (r: Vec<HistoryEntry>)
    ensures
        r@.len() == history_len(state@, count as int),
        forall|i: int|
            0 <= i < r@.len() ==> (#[trigger] r@[i])@ == history_entry(state@.commands[i]),
{
    let n: usize = state.commands.len();
    let mut out: Vec<HistoryEntry> = Vec::new();
    let mut i: usize = 0;
    while i < n && i < count
        invariant
            n == state.commands@.len(),
            i <= n,
            i <= count,
            out@.len() == i,
            forall|k: int|
                0 <= k < i ==> (#[trigger] out@[k])@ == history_entry(state@.commands[k]),
        decreases n - i,
    {
        let c = &state.commands[i];
        assert(c@ == state@.commands[i as int]);
        let lines = split_lines(c.output.as_str());
        out.push(
            HistoryEntry {
                command_id: c.id,
                command: c.command.as_str().to_owned(),
                exit_code: c.exit_code,
                output_lines: lines.len(),
            },
        );
        i = i + 1;
    }
    out
}

/// A read of the first or the last lines, or of all, leaves the cursor where it
/// stands.
pub proof fn only_next_moves_the_cursor(s: StateModel, i: int, p: ParamsModel)
    requires
        0 <= i < s.commands.len(),
        p.next is None,
    ensures
        state_read(s, i, p) == s,
{
    assert(state_read(s, i, p).commands =~= s.commands);
}

/// A request whose time is up is always answered.
pub proof fn expired_read_is_answered(r: RecordModel, p: ParamsModel)
    ensures
        is_ready(r, p, true),
{
}

/// The answer about a command tells its identifier, its text, whether it has
/// ended, and how many lines it has put out. Of a command that has ended it tells
/// the exit code, what was skipped, and the number of matches where a pattern was
/// given.
pub proof fn answer_is_of_the_command(r: RecordModel, p: ParamsModel, expired: bool)
    requires
        r.read_cursor <= lines_of(r.output).len(),
        0 <= r.read_cursor,
    ensures
        ({
            let reply = read_reply(r, p, expired);
            &&& reply.command_id == Some(r.id)
            &&& reply.command == Some(r.command)
            &&& reply.status == CommandStatus::Completed <==> r.completed
            &&& reply.total_lines == lines_of(r.output).len()
            &&& r.completed ==> reply.exit_code == r.exit_code
            &&& r.completed && p.search is Some ==> reply.search_matches is Some
            &&& r.completed && p.search is None ==> reply.search_matches is None
            &&& r.completed && p.next is None && p.head is None && p.tail is None && p.search is None
                ==> reply.output == joined(lines_of(r.output), "\n"@) && reply.lines_skipped == Some(
                0int,
            )
        }),
        ({
            let reply = reply_of(r, p, true, true);
            reply.exit_code == r.exit_code && reply.command == Some(r.command) && reply.command_id
                == Some(r.id)
        }),
{
    crate::daemon::read::window_is_what_was_asked(
        lines_of(r.output),
        (ParamsModel { search: None, ..p }),
        r.read_cursor,
        0,
    );
}

/// A read is about the command with the identifier that was given, or else about
/// the newest; where there is none, about none.
pub proof fn read_is_about_the_command(s: StateModel, id: u64)
    requires
        s.history_ordered(),
    ensures
        target_of(s, Some(id)) matches Some(i) ==> 0 <= i < s.commands.len() && s.commands[i].id
            == id,
        target_of(s, Some(id)) is None ==> forall|i: int|
            0 <= i < s.commands.len() ==> (#[trigger] s.commands[i]).id != id,
        s.commands.len() > 0 ==> target_of(s, None) == Some(0int),
        s.commands.len() == 0 ==> target_of(s, None) is None,
{
    crate::pane::state::record_is_found_by_id(s, id as int, 0);
}

/// A read of a command in execution waits for as many lines as it asks for. One
/// that asks for all lines does not wait; one that asks for the last does, until
/// the end or until its time is up.
pub proof fn running_command_is_waited_for(r: RecordModel, p: ParamsModel, n: usize)
    requires
        !r.completed,
        p.search is None,
        0 <= r.read_cursor <= lines_of(r.output).len(),
    ensures
        p.next == Some(n) ==> (is_ready(r, p, false) <==> lines_of(r.output).len() >= r.read_cursor
            + n),
        p.next is None && p.head == Some(n) ==> (is_ready(r, p, false) <==> lines_of(
            r.output,
        ).len() >= n),
        p.next is None && p.head is None && p.tail is Some ==> !is_ready(r, p, false),
        p.next is None && p.head is None && p.tail is None ==> is_ready(r, p, false),
{
    crate::daemon::read::enough_is_as_many_as_asked(lines_of(r.output), p, r.read_cursor, n);
}

/// Reading a command leaves all others as they are, and of it all but the cursor.
pub proof fn reading_changes_a_cursor(s: StateModel, i: int, p: ParamsModel)
    requires
        0 <= i < s.commands.len(),
    ensures
        ({
            let now = state_read(s, i, p);
            &&& now == (StateModel { commands: now.commands, ..s })
            &&& now.commands.len() == s.commands.len()
            &&& forall|k: int|
                0 <= k < s.commands.len() && k != i ==> now.commands[k] == s.commands[k]
            &&& now.commands[i] == (RecordModel {
                read_cursor: now.commands[i].read_cursor,
                ..s.commands[i]
            })
        }),
{
}

/// The history tells of each command its identifier, text, exit code and number
/// of lines, and of as many commands as were asked for or are there.
pub proof fn history_tells_the_commands(s: StateModel, count: int, r: RecordModel)
    requires
        0 <= count,
    ensures
        history_len(s, count) <= count,
        history_len(s, count) <= s.commands.len(),
        history_len(s, count) == count || history_len(s, count) == s.commands.len(),
        history_entry(r).command_id == r.id,
        history_entry(r).command == r.command,
        history_entry(r).exit_code == r.exit_code,
        history_entry(r).output_lines == lines_of(r.output).len(),
{
}

/// A command is the one that was sent where it is newer than all before.
pub proof fn sent_command_is_newer(s: StateModel, id_before: int)
    requires
        s.history_ordered(),
    ensures
        has_new(s, id_before) <==> exists|i: int|
            0 <= i < s.commands.len() && (#[trigger] s.commands[i]).id > id_before,
{
    if has_new(s, id_before) {
        assert(s.commands[0].id > id_before);
    }
}

/// A command that is not there is named.
pub proof fn missing_command_is_named(id: u64)
    ensures
        tells(missing_command(Some(id)), decimal(id as nat)),
        missing_command(Some(id)) != missing_command(None),
{
    middle_is_told("Command "@, decimal(id as nat), " not found"@);
    reveal_strlit("Command ");
    reveal_strlit("No commands in history");
    assert(missing_command(Some(id))[0] == 'C');
    assert(missing_command(None)[0] == 'N');
}

} // verus!
