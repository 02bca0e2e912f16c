//! Structured pane state: what the parsing pipeline has found out about a pane.

use crate::text::{chars_of, find_char, has_prefix, index_of_char, index_of_char_unique, last_index_of_char, opt_text, rfind_char, starts_with, str_eq, substring};
use std::collections::VecDeque;
use vstd::prelude::*;
use vstd::string::StringExecFns;

verus! {

/// How many commands a pane's history keeps.
pub const MAX_COMMAND_HISTORY: usize = 100;

/// How many processes a pane remembers shell integration of.
pub const MAX_OSC133_CACHE: usize = 5;

/// A command with its output, in progress or completed.
#[derive(Debug)]
pub struct CommandRecord {
    /// Monotonic identifier (higher is newer).
    pub id: u64,
    /// The command text as typed.
    pub command: String,
    /// Output, which grows while the command runs.
    pub output: String,
    /// Exit code; none while running or where it is not known.
    pub exit_code: Option<i32>,
    /// Whether the output is done. A command can end without an exit code.
    pub output_done: bool,
    /// Whether the command has completed.
    pub completed: bool,
    /// How many lines of output were read in sequence.
    pub read_cursor: usize,
    /// When the record was made, in nanoseconds on the pane's clock.
    pub timestamp: u64,
}

/// A command record, mathematically.
pub ghost struct RecordModel {
    pub id: int,
    pub command: Seq<char>,
    pub output: Seq<char>,
    pub exit_code: Option<i32>,
    pub output_done: bool,
    pub completed: bool,
    pub read_cursor: int,
    pub timestamp: int,
}

impl View for CommandRecord {
    type V = RecordModel;

    open spec fn view(&self) -> RecordModel {
        RecordModel {
            id: self.id as int,
            command: self.command@,
            output: self.output@,
            exit_code: self.exit_code,
            output_done: self.output_done,
            completed: self.completed,
            read_cursor: self.read_cursor as int,
            timestamp: self.timestamp as int,
        }
    }
}

/// Activity of a pane.
#[derive(Debug, Clone, Copy, PartialEq, Eq, Structural)]
pub enum Activity {
    /// The shell is at a prompt.
    Idle,
    /// A command is executing.
    Busy,
    /// No markers were seen yet, or the pane is recovering.
    Unknown,
}

impl Default for Activity {
    fn default() -> (r: Self)
        ensures
            r == Activity::Unknown,
    {
        Activity::Unknown
    }
}

/// Structured state of a pane.
#[derive(Debug)]
pub struct PaneState {
    /// Commands, most recent first.
    pub commands: VecDeque<CommandRecord>,
    /// Current activity.
    pub activity: Activity,
    /// Working directory.
    pub cwd: Option<String>,
    /// User name.
    pub user: Option<String>,
    /// Host name; none for the local host.
    pub hostname: Option<String>,
    /// The identifier given last.
    pub seq_counter: u64,
    /// How many commands have signalled completion.
    pub completion_seq: u64,
    /// Exit code of the command that signalled completion last.
    pub last_exit_code: Option<i32>,
    /// When the last shell-integration marker came.
    pub last_osc133_marker: Option<u64>,
    /// When the last terminal data came.
    pub last_data: Option<u64>,
    /// Processes with working (true) or missing (false) shell integration, most
    /// recent first.
    pub osc133_cache: VecDeque<(u32, bool)>,
    /// Cursor position (line, column) where the user's input starts.
    pub input_start: Option<(usize, usize)>,
    /// The pane's clock, in nanoseconds: what is recorded next happens then.
    pub now: u64,
}

/// Pane state, mathematically.
pub ghost struct StateModel {
    pub commands: Seq<RecordModel>,
    pub activity: Activity,
    pub cwd: Option<Seq<char>>,
    pub user: Option<Seq<char>>,
    pub hostname: Option<Seq<char>>,
    pub seq_counter: int,
    pub completion_seq: int,
    pub last_exit_code: Option<i32>,
    pub last_osc133_marker: Option<u64>,
    pub last_data: Option<u64>,
    pub osc133_cache: Seq<(u32, bool)>,
    pub input_start: Option<(usize, usize)>,
    pub now: int,
}

/// The records of a history, mathematically.
pub open spec fn records(v: Seq<CommandRecord>) -> Seq<RecordModel> {
    Seq::new(v.len(), |i: int| v[i]@)
}

impl View for PaneState {
    type V = StateModel;

    open spec fn view(&self) -> StateModel {
        StateModel {
            commands: records(self.commands@),
            activity: self.activity,
            cwd: opt_text(self.cwd),
            user: opt_text(self.user),
            hostname: opt_text(self.hostname),
            seq_counter: self.seq_counter as int,
            completion_seq: self.completion_seq as int,
            last_exit_code: self.last_exit_code,
            last_osc133_marker: self.last_osc133_marker,
            last_data: self.last_data,
            osc133_cache: self.osc133_cache@,
            input_start: self.input_start,
            now: self.now as int,
        }
    }
}

/// The first `max` of `s`.
pub open spec fn capped<A>(s: Seq<A>, max: int) -> Seq<A> {
    if s.len() <= max {
        s
    } else {
        s.subrange(0, max)
    }
}

/// What the cache says about a process.
pub open spec fn cached(cache: Seq<(u32, bool)>, pid: u32) -> Option<bool>
    decreases cache.len(),
{
    if cache.len() == 0 {
        None
    } else if cache[0].0 == pid {
        Some(cache[0].1)
    } else {
        cached(cache.drop_first(), pid)
    }
}

/// The cache without a process.
pub open spec fn without_pid(cache: Seq<(u32, bool)>, pid: u32) -> Seq<(u32, bool)>
    decreases cache.len(),
{
    if cache.len() == 0 {
        cache
    } else {
        let before = without_pid(cache.drop_last(), pid);
        if cache.last().0 == pid {
            before
        } else {
            before.push(cache.last())
        }
    }
}

/// The cache after a process was found to have shell integration or not.
pub open spec fn cache_after(cache: Seq<(u32, bool)>, pid: u32, confirmed: bool) -> Seq<
    (u32, bool),
> {
    capped(seq![(pid, confirmed)] + without_pid(cache, pid), MAX_OSC133_CACHE as int)
}

impl StateModel {
    /// The state of a pane of which nothing is known.
    pub open spec fn fresh() -> StateModel {
        StateModel {
            commands: Seq::empty(),
            activity: Activity::Unknown,
            cwd: None,
            user: None,
            hostname: None,
            seq_counter: 0,
            completion_seq: 0,
            last_exit_code: None,
            last_osc133_marker: None,
            last_data: None,
            osc133_cache: Seq::empty(),
            input_start: None,
            now: 0,
        }
    }

    /// The state after a record was added to the history.
    pub open spec fn with_record(self, record: RecordModel) -> StateModel {
        StateModel {
            commands: capped(seq![record] + self.commands, MAX_COMMAND_HISTORY as int),
            seq_counter: self.seq_counter + 1,
            ..self
        }
    }

    /// The state after a command started.
    pub open spec fn started(self, command: Seq<char>) -> StateModel {
        self.with_record(
            RecordModel {
                id: self.seq_counter + 1,
                command,
                output: Seq::empty(),
                exit_code: None,
                output_done: false,
                completed: false,
                read_cursor: 0,
                timestamp: self.now,
            },
        )
    }

    /// The state after a completed command was recorded.
    pub open spec fn completed(
        self,
        command: Seq<char>,
        output: Seq<char>,
        exit_code: Option<i32>,
    ) -> StateModel {
        self.with_record(
            RecordModel {
                id: self.seq_counter + 1,
                command,
                output,
                exit_code,
                output_done: true,
                completed: true,
                read_cursor: 0,
                timestamp: self.now,
            },
        )
    }

    /// The place of the record with that identifier, from `i` on.
    pub open spec fn find_id(self, id: int, i: int) -> Option<int>
        decreases self.commands.len() - i,
    {
        if i < 0 || i >= self.commands.len() {
            None
        } else if self.commands[i].id == id {
            Some(i)
        } else {
            self.find_id(id, i + 1)
        }
    }

    /// The history is bounded, newest first, and no record has an identifier
    /// that was not given yet.
    pub open spec fn history_ordered(self) -> bool {
        &&& self.commands.len() <= MAX_COMMAND_HISTORY
        &&& forall|i: int|
            0 <= i < self.commands.len() ==> (#[trigger] self.commands[i]).id <= self.seq_counter
        &&& forall|i: int, j: int|
            0 <= i < j < self.commands.len() ==> (#[trigger] self.commands[i]).id > (
            #[trigger] self.commands[j]).id
    }

    /// The cache is bounded and names no process twice.
    pub open spec fn cache_distinct(self) -> bool {
        &&& self.osc133_cache.len() <= MAX_OSC133_CACHE
        &&& forall|i: int, j: int|
            0 <= i < j < self.osc133_cache.len() ==> (#[trigger] self.osc133_cache[i]).0 != (
            #[trigger] self.osc133_cache[j]).0
    }
}

/// Recording a command, started or completed, keeps the history bounded and
/// newest first.
pub proof fn recording_keeps_history(m: StateModel, record: RecordModel)
    requires
        m.history_ordered(),
        record.id == m.seq_counter + 1,
    ensures
        m.with_record(record).history_ordered(),
        m.with_record(record).commands.len() > 0,
        m.with_record(record).commands[0] == record,
{
    let all = seq![record] + m.commands;
    let after = m.with_record(record);
    assert forall|i: int, j: int| 0 <= i < j < after.commands.len() implies (
    #[trigger] after.commands[i]).id > (#[trigger] after.commands[j]).id by {
        assert(after.commands[j] == m.commands[j - 1]);
        if i > 0 {
            assert(after.commands[i] == m.commands[i - 1]);
        }
    }
    assert forall|i: int| 0 <= i < after.commands.len() implies (#[trigger] after.commands[i]).id
        <= after.seq_counter by {
        if i > 0 {
            assert(after.commands[i] == m.commands[i - 1]);
        }
    }
}

/// Leaving a process out of the cache leaves no entry of it, and the others as
/// they were.
proof fn without_pid_facts(cache: Seq<(u32, bool)>, pid: u32)
    requires
        forall|i: int, j: int|
            0 <= i < j < cache.len() ==> (#[trigger] cache[i]).0 != (#[trigger] cache[j]).0,
    ensures
        ({
            let r = without_pid(cache, pid);
            &&& r.len() <= cache.len()
            &&& forall|i: int| 0 <= i < r.len() ==> (#[trigger] r[i]).0 != pid && cache.contains(r[i])
            &&& forall|i: int, j: int|
                0 <= i < j < r.len() ==> (#[trigger] r[i]).0 != (#[trigger] r[j]).0
        }),
    decreases cache.len(),
{
    if cache.len() > 0 {
        let prev = cache.drop_last();
        assert forall|i: int, j: int| 0 <= i < j < prev.len() implies (#[trigger] prev[i]).0 != (
        #[trigger] prev[j]).0 by {
            assert(cache[i].0 != cache[j].0);
        }
        without_pid_facts(prev, pid);
        let before = without_pid(prev, pid);
        let r = without_pid(cache, pid);
        assert forall|i: int| 0 <= i < r.len() implies (#[trigger] r[i]).0 != pid && cache.contains(
            r[i],
        ) by {
            if i < before.len() {
                assert(r[i] == before[i]);
                let k = choose|k: int| 0 <= k < prev.len() && prev[k] == before[i];
                assert(cache[k] == r[i]);
            } else {
                assert(r[i] == cache[cache.len() - 1]);
            }
        }
        assert forall|i: int, j: int| 0 <= i < j < r.len() implies (#[trigger] r[i]).0 != (
        #[trigger] r[j]).0 by {
            if j < before.len() {
                assert(r[i] == before[i] && r[j] == before[j]);
            } else {
                assert(r[i] == before[i]);
                let k = choose|k: int| 0 <= k < prev.len() && prev[k] == before[i];
                assert(cache[k].0 != cache[cache.len() - 1].0);
            }
        }
    }
}

/// The cache stays bounded, names no process twice, and answers for the process
/// that was found out last.
pub proof fn cache_after_is_distinct(m: StateModel, pid: u32, confirmed: bool)
    requires
        m.cache_distinct(),
    ensures
        ({
            let after = StateModel {
                osc133_cache: cache_after(m.osc133_cache, pid, confirmed),
                ..m
            };
            after.cache_distinct() && cached(after.osc133_cache, pid) == Some(confirmed)
        }),
{
    without_pid_facts(m.osc133_cache, pid);
    let rest = without_pid(m.osc133_cache, pid);
    let all = seq![(pid, confirmed)] + rest;
    let after = cache_after(m.osc133_cache, pid, confirmed);
    assert(after[0] == (pid, confirmed));
    assert forall|i: int, j: int| 0 <= i < j < after.len() implies (#[trigger] after[i]).0 != (
    #[trigger] after[j]).0 by {
        assert(after[j] == rest[j - 1]);
        if i > 0 {
            assert(after[i] == rest[i - 1]);
        }
    }
}

/// The cache after a sequence of marks, each a process and whether it was found
/// to have shell integration, from the empty cache.
pub open spec fn cache_of(marks: Seq<(u32, bool)>) -> Seq<(u32, bool)>
    decreases marks.len(),
{
    if marks.len() == 0 {
        Seq::empty()
    } else {
        cache_after(cache_of(marks.drop_last()), marks.last().0, marks.last().1)
    }
}

/// The place of the last mark of a process; -1 where it has none.
pub open spec fn last_mark(marks: Seq<(u32, bool)>, pid: u32) -> int
    decreases marks.len(),
{
    if marks.len() == 0 {
        -1
    } else if marks.last().0 == pid {
        marks.len() - 1
    } else {
        last_mark(marks.drop_last(), pid)
    }
}

/// The processes that were marked after the mark at `i`.
pub open spec fn marked_since(marks: Seq<(u32, bool)>, i: int) -> Set<u32> {
    marks.subrange(i + 1, marks.len() as int).map_values(|m: (u32, bool)| m.0).to_set()
}

/// Every process that was marked, with its last mark, the latest first.
spec fn recent(marks: Seq<(u32, bool)>) -> Seq<(u32, bool)>
    decreases marks.len(),
{
    if marks.len() == 0 {
        Seq::empty()
    } else {
        seq![marks.last()] + without_pid(recent(marks.drop_last()), marks.last().0)
    }
}

/// No process has two entries.
spec fn names_once(s: Seq<(u32, bool)>) -> bool {
    forall|i: int, j: int| 0 <= i < j < s.len() ==> (#[trigger] s[i]).0 != (#[trigger] s[j]).0
}

/// Leaving a process out takes its one entry away.
proof fn without_pid_is_removal(s: Seq<(u32, bool)>, pid: u32, m: int)
    requires
        names_once(s),
        0 <= m <= s.len(),
        m < s.len() ==> s[m].0 == pid,
        m == s.len() ==> forall|i: int| 0 <= i < s.len() ==> (#[trigger] s[i]).0 != pid,
    ensures
        without_pid(s, pid) == if m < s.len() {
            s.remove(m)
        } else {
            s
        },
    decreases s.len(),
{
    if s.len() > 0 {
        let prev = s.drop_last();
        let last = s.len() - 1;
        assert forall|i: int, j: int| 0 <= i < j < prev.len() implies (#[trigger] prev[i]).0 != (
        #[trigger] prev[j]).0 by {
            assert(s[i].0 != s[j].0);
        }
        assert(s[last] == s.last());
        if m < last {
            without_pid_is_removal(prev, pid, m);
            assert(s[m].0 != s[last].0);
            assert(prev.remove(m).push(s.last()) =~= s.remove(m));
        } else {
            assert forall|i: int| 0 <= i < prev.len() implies (#[trigger] prev[i]).0 != pid by {
                if m == last {
                    assert(s[i].0 != s[m].0);
                } else {
                    assert(s[i].0 != pid);
                }
            }
            without_pid_is_removal(prev, pid, prev.len() as int);
            if m == last {
                assert(s.remove(m) =~= prev);
            } else {
                assert(prev.push(s.last()) =~= s);
            }
        }
    }
}

/// The last mark of a process is one of it, and no later one is.
proof fn last_mark_is_last(marks: Seq<(u32, bool)>, pid: u32)
    ensures
        -1 <= last_mark(marks, pid) < marks.len(),
        last_mark(marks, pid) >= 0 ==> marks[last_mark(marks, pid)].0 == pid,
        forall|k: int|
            0 <= k < marks.len() && (#[trigger] marks[k]).0 == pid ==> k <= last_mark(marks, pid),
    decreases marks.len(),
{
    if marks.len() > 0 && marks.last().0 != pid {
        let prev = marks.drop_last();
        last_mark_is_last(prev, pid);
        assert forall|k: int| 0 <= k < marks.len() && (#[trigger] marks[k]).0 == pid implies k
            <= last_mark(marks, pid) by {
            assert(k < prev.len());
            assert(prev[k] == marks[k]);
        }
    }
}

/// The place of a process in a list; its length where it has none.
proof fn entry_of(s: Seq<(u32, bool)>, pid: u32) -> (m: int)
    ensures
        0 <= m <= s.len(),
        m < s.len() ==> s[m].0 == pid,
        m == s.len() ==> forall|i: int| 0 <= i < s.len() ==> (#[trigger] s[i]).0 != pid,
{
    if exists|i: int| 0 <= i < s.len() && (#[trigger] s[i]).0 == pid {
        choose|i: int| 0 <= i < s.len() && (#[trigger] s[i]).0 == pid
    } else {
        s.len() as int
    }
}

/// The recent processes are those that were marked, each with its last mark, and
/// in the order of their last marks.
proof fn recent_is_ordered(marks: Seq<(u32, bool)>)
    ensures
        names_once(recent(marks)),
        forall|j: int|
            0 <= j < recent(marks).len() ==> {
                let i = last_mark(marks, (#[trigger] recent(marks)[j]).0);
                0 <= i && marks[i] == recent(marks)[j]
            },
        forall|j: int, k: int|
            0 <= j < k < recent(marks).len() ==> last_mark(marks, (#[trigger] recent(marks)[j]).0)
                > last_mark(marks, (#[trigger] recent(marks)[k]).0),
        forall|pid: u32|
            #[trigger] last_mark(marks, pid) >= 0 ==> exists|j: int|
                0 <= j < recent(marks).len() && (#[trigger] recent(marks)[j]).0 == pid,
    decreases marks.len(),
{
    if marks.len() > 0 {
        let prev = marks.drop_last();
        let x = marks.last().0;
        let old_list = recent(prev);
        let list = recent(marks);
        recent_is_ordered(prev);
        let m = entry_of(old_list, x);
        without_pid_is_removal(old_list, x, m);
        let rest = without_pid(old_list, x);
        assert forall|j: int| 1 <= j < list.len() implies {
            let from = if j - 1 < m {
                j - 1
            } else {
                j
            };
            &&& 0 <= from < old_list.len()
            &&& (#[trigger] list[j]) == old_list[from]
            &&& list[j].0 != x
            &&& last_mark(marks, list[j].0) == last_mark(prev, list[j].0)
        } by {
            assert(list[j] == rest[j - 1]);
            let from = if j - 1 < m {
                j - 1
            } else {
                j
            };
            if m < old_list.len() {
                assert(rest == old_list.remove(m));
                if from < m {
                    assert(old_list[from].0 != old_list[m].0);
                } else {
                    assert(old_list[m].0 != old_list[from].0);
                }
            } else {
                assert(old_list[from].0 != x);
            }
        }
        assert(list[0] == marks.last());
        assert forall|j: int| 0 <= j < list.len() implies {
            let i = last_mark(marks, (#[trigger] list[j]).0);
            0 <= i && marks[i] == list[j]
        } by {
            if j > 0 {
                let i = last_mark(prev, list[j].0);
                last_mark_is_last(prev, list[j].0);
                assert(prev[i] == marks[i]);
            }
        }
        assert forall|j: int, k: int| 0 <= j < k < list.len() implies last_mark(
            marks,
            (#[trigger] list[j]).0,
        ) > last_mark(marks, (#[trigger] list[k]).0) by {
            last_mark_is_last(prev, list[k].0);
            if j > 0 {
                let a = if j - 1 < m {
                    j - 1
                } else {
                    j
                };
                let b = if k - 1 < m {
                    k - 1
                } else {
                    k
                };
                assert(list[j] == old_list[a] && list[k] == old_list[b]);
            }
        }
        assert forall|pid: u32| #[trigger] last_mark(marks, pid) >= 0 implies exists|j: int|
            0 <= j < list.len() && (#[trigger] list[j]).0 == pid by {
            if pid == x {
                assert(list[0].0 == pid);
            } else {
                assert(last_mark(prev, pid) >= 0);
                let j = choose|j: int| 0 <= j < old_list.len() && (#[trigger] old_list[j]).0 == pid;
                let at = if j < m {
                    j + 1
                } else {
                    j
                };
                if m == old_list.len() {
                    assert(list[j + 1] == old_list[j]);
                } else if j < m {
                    assert(list[j + 1] == old_list.remove(m)[j]);
                } else {
                    assert(j != m);
                    assert(list[j] == old_list.remove(m)[j - 1]);
                }
                assert(list[at].0 == pid);
            }
        }
    }
}

/// The cache holds the most recent processes.
proof fn cache_holds_recent(marks: Seq<(u32, bool)>)
    ensures
        cache_of(marks) == capped(recent(marks), MAX_OSC133_CACHE as int),
    decreases marks.len(),
{
    if marks.len() > 0 {
        let prev = marks.drop_last();
        let x = marks.last().0;
        let all = recent(prev);
        let held = cache_of(prev);
        cache_holds_recent(prev);
        recent_is_ordered(prev);
        let m = entry_of(all, x);
        without_pid_is_removal(all, x, m);
        assert forall|i: int, j: int| 0 <= i < j < held.len() implies (#[trigger] held[i]).0 != (
        #[trigger] held[j]).0 by {
            assert(all[i].0 != all[j].0);
        }
        if m < held.len() {
            assert(held[m] == all[m]);
            without_pid_is_removal(held, x, m);
        } else {
            assert forall|i: int| 0 <= i < held.len() implies (#[trigger] held[i]).0 != x by {
                assert(held[i] == all[i]);
                if m < all.len() {
                    assert(all[i].0 != all[m].0);
                }
            }
            without_pid_is_removal(held, x, held.len() as int);
        }
        assert(cache_of(marks) =~= capped(recent(marks), MAX_OSC133_CACHE as int));
    } else {
        assert(cache_of(marks) =~= capped(recent(marks), MAX_OSC133_CACHE as int));
    }
}

/// What a cache says of a process is its entry.
proof fn cached_is_entry(cache: Seq<(u32, bool)>, pid: u32, m: int)
    requires
        names_once(cache),
        0 <= m <= cache.len(),
        m < cache.len() ==> cache[m].0 == pid,
        m == cache.len() ==> forall|i: int| 0 <= i < cache.len() ==> (#[trigger] cache[i]).0 != pid,
    ensures
        cached(cache, pid) == if m < cache.len() {
            Some(cache[m].1)
        } else {
            None
        },
    decreases cache.len(),
{
    if cache.len() > 0 && m > 0 {
        let rest = cache.drop_first();
        assert forall|i: int, j: int| 0 <= i < j < rest.len() implies (#[trigger] rest[i]).0 != (
        #[trigger] rest[j]).0 by {
            assert(cache[i + 1].0 != cache[j + 1].0);
        }
        assert forall|i: int| m == cache.len() && 0 <= i < rest.len() implies (#[trigger] rest[i]).0
            != pid by {
            assert(cache[i + 1].0 != pid);
        }
        assert(cache[0].0 != pid) by {
            if m < cache.len() {
                assert(cache[0].0 != cache[m].0);
            }
        }
        cached_is_entry(rest, pid, m - 1);
    }
}

/// What is known of a process after any sequence of marks: its last mark, if and
/// only if fewer than `MAX_OSC133_CACHE` other processes were marked since.
pub proof fn lookup_is_last_mark(marks: Seq<(u32, bool)>, pid: u32)
    ensures
        ({
            let i = last_mark(marks, pid);
            cached(cache_of(marks), pid) == if i >= 0 && marked_since(marks, i).len()
                < MAX_OSC133_CACHE {
                Some(marks[i].1)
            } else {
                None
            }
        }),
        !marked_since(marks, last_mark(marks, pid)).contains(pid),
{
    let i = last_mark(marks, pid);
    let list = recent(marks);
    let cache = cache_of(marks);
    recent_is_ordered(marks);
    cache_holds_recent(marks);
    last_mark_is_last(marks, pid);
    let m = entry_of(list, pid);
    assert forall|a: int, b: int| 0 <= a < b < cache.len() implies (#[trigger] cache[a]).0 != (
    #[trigger] cache[b]).0 by {
        assert(list[a].0 != list[b].0);
    }
    let after = marks.subrange(i + 1, marks.len() as int).map_values(|m: (u32, bool)| m.0);
    assert(!after.contains(pid)) by {
        if after.contains(pid) {
            let k = choose|k: int| 0 <= k < after.len() && after[k] == pid;
            assert(marks[i + 1 + k].0 == pid);
        }
    }
    if i >= 0 {
        assert(m < list.len());
        let ahead = list.subrange(0, m).map_values(|e: (u32, bool)| e.0);
        assert forall|q: u32| after.contains(q) == ahead.contains(q) by {
            last_mark_is_last(marks, q);
            if after.contains(q) {
                let k = choose|k: int| 0 <= k < after.len() && after[k] == q;
                assert(marks[i + 1 + k].0 == q);
                assert(last_mark(marks, q) > i);
                let at = choose|j: int| 0 <= j < list.len() && (#[trigger] list[j]).0 == q;
                if at > m {
                    assert(last_mark(marks, list[m].0) > last_mark(marks, list[at].0));
                }
                assert(at < m);
                assert(ahead[at] == q);
            }
            if ahead.contains(q) {
                let k = choose|k: int| 0 <= k < ahead.len() && ahead[k] == q;
                assert(list[k].0 == q);
                assert(last_mark(marks, list[k].0) > last_mark(marks, list[m].0));
                let at = last_mark(marks, q);
                assert(after[at - i - 1] == q);
            }
        }
        assert(after.to_set() =~= ahead.to_set());
        assert(ahead.no_duplicates()) by {
            assert forall|a: int, b: int| 0 <= a < ahead.len() && 0 <= b < ahead.len() && a
                != b implies ahead[a] != ahead[b] by {
                if a < b {
                    assert(list[a].0 != list[b].0);
                } else {
                    assert(list[b].0 != list[a].0);
                }
            }
        }
        ahead.unique_seq_to_set();
        if m < cache.len() {
            assert(cache[m] == list[m]);
            cached_is_entry(cache, pid, m);
        } else {
            assert forall|k: int| 0 <= k < cache.len() implies (#[trigger] cache[k]).0 != pid by {
                assert(list[k].0 != list[m].0);
            }
            cached_is_entry(cache, pid, cache.len() as int);
        }
    } else {
        assert forall|k: int| 0 <= k < cache.len() implies (#[trigger] cache[k]).0 != pid by {
            assert(cache[k] == list[k]);
            assert(last_mark(marks, list[k].0) >= 0);
        }
        cached_is_entry(cache, pid, cache.len() as int);
    }
}

/// The parts of an OSC 7 address `file://[user@]host[/path]`.
pub ghost struct AddressModel {
    pub user: Option<Seq<char>>,
    pub host: Option<Seq<char>>,
    pub path: Option<Seq<char>>,
}

/// Whether a host name is that of the local host.
pub open spec fn is_local(host: Seq<char>) -> bool {
    host.len() == 0 || host == "localhost"@ || host == "127.0.0.1"@ || host == "::1"@
}

/// The parts of an address; none where it is no `file://` address. The user
/// ends at the last `@` of the authority.
pub open spec fn address_of(uri: Seq<char>) -> Option<AddressModel> {
    let scheme = "file://"@;
    if !has_prefix(uri, scheme) {
        None
    } else {
        let rest = uri.subrange(scheme.len() as int, uri.len() as int);
        let slash = index_of_char(rest, '/');
        let authority = rest.subrange(0, slash);
        let at = last_index_of_char(authority, '@');
        let host = authority.subrange(at + 1, authority.len() as int);
        Some(
            AddressModel {
                user: if at > 0 {
                    Some(authority.subrange(0, at))
                } else {
                    None
                },
                host: if is_local(host) {
                    None
                } else {
                    Some(host)
                },
                path: if slash < rest.len() {
                    Some(rest.subrange(slash, rest.len() as int))
                } else {
                    None
                },
            },
        )
    }
}

/// `VecDeque` indexing by mutable reference: the element at `i`, to be changed
/// in place.
#[verifier::external_body]
fn record_mut(v: &mut VecDeque<CommandRecord>, i: usize) -> (r: &mut CommandRecord)
    requires
        i < old(v)@.len(),
    ensures
        *r == old(v)@[i as int],
        final(v)@ == old(v)@.update(i as int, *final(r)),
{
    &mut v[i]
}

impl PaneState {
    /// A pane of which nothing is known.
    pub fn new() -> (r: Self)
        ensures
            r@ == StateModel::fresh(),
    {
        let r = Self {
            commands: VecDeque::new(),
            activity: Activity::Unknown,
            cwd: None,
            user: None,
            hostname: None,
            seq_counter: 0,
            completion_seq: 0,
            last_exit_code: None,
            last_osc133_marker: None,
            last_data: None,
            osc133_cache: VecDeque::new(),
            input_start: None,
            now: 0,
        };
        assert(r@.commands =~= Seq::<RecordModel>::empty());
        assert(r@.osc133_cache =~= Seq::<(u32, bool)>::empty());
        r
    }

    /// Set the clock that what follows is recorded with.
    pub fn set_clock(&mut self, now: u64)
        ensures
            final(self)@ == (StateModel { now: now as int, ..old(self)@ }),
    {
        self.now = now;
    }

    /// Whether a process is known to have shell integration (true) or not
    /// (false).
    pub fn osc133_lookup(&self, pid: u32) -> (r: Option<bool>)
        ensures
            r == cached(self@.osc133_cache, pid),
    {
        let ghost all = self.osc133_cache@;
        let mut i: usize = 0;
        assert(all.subrange(0, all.len() as int) =~= all);
        while i < self.osc133_cache.len()
            invariant
                i <= self.osc133_cache@.len(),
                all == self.osc133_cache@,
                cached(all, pid) == cached(all.subrange(i as int, all.len() as int), pid),
            decreases self.osc133_cache@.len() - i,
        {
            let entry = self.osc133_cache[i];
            assert(all.subrange(i as int, all.len() as int).drop_first() =~= all.subrange(
                i + 1,
                all.len() as int,
            ));
            if entry.0 == pid {
                return Some(entry.1);
            }
            i = i + 1;
        }
        None
    }

    /// Mark a process as having shell integration.
    pub fn osc133_confirm(&mut self, pid: u32)
        ensures
            final(self)@ == (StateModel {
                osc133_cache: cache_after(old(self)@.osc133_cache, pid, true),
                ..old(self)@
            }),
    {
        self.osc133_upsert(pid, true);
    }

    /// Mark a process as not having shell integration.
    pub fn osc133_fail(&mut self, pid: u32)
        ensures
            final(self)@ == (StateModel {
                osc133_cache: cache_after(old(self)@.osc133_cache, pid, false),
                ..old(self)@
            }),
    {
        self.osc133_upsert(pid, false);
    }

    fn osc133_upsert(&mut self, pid: u32, confirmed: bool)
        ensures
            final(self)@ == (StateModel {
                osc133_cache: cache_after(old(self)@.osc133_cache, pid, confirmed),
                ..old(self)@
            }),
    {
        let ghost all = self.osc133_cache@;
        let mut kept: VecDeque<(u32, bool)> = VecDeque::new();
        let mut i: usize = 0;
        assert(all.subrange(0, 0) =~= Seq::<(u32, bool)>::empty());
        while i < self.osc133_cache.len()
            invariant
                i <= self.osc133_cache@.len(),
                all == self.osc133_cache@,
                *self == *old(self),
                kept@ == without_pid(all.subrange(0, i as int), pid),
            decreases self.osc133_cache@.len() - i,
        {
            let ghost upto = all.subrange(0, i + 1);
            assert(upto.drop_last() =~= all.subrange(0, i as int));
            let entry = self.osc133_cache[i];
            if entry.0 != pid {
                kept.push_back(entry);
            }
            i = i + 1;
        }
        assert(all.subrange(0, i as int) =~= all);
        kept.push_front((pid, confirmed));
        assert(kept@ =~= seq![(pid, confirmed)] + without_pid(all, pid));
        kept.truncate(MAX_OSC133_CACHE);
        assert(kept@ =~= cache_after(all, pid, confirmed));
        self.osc133_cache = kept;
    }

    /// Record that a command started. Returns its identifier.
    pub fn push_command_start(&mut self, command: String) -> (id: u64)
        requires
            old(self)@.seq_counter < u64::MAX,
        ensures
            final(self)@ == old(self)@.started(command@),
            id == final(self)@.seq_counter,
    {
        let output = String::new();
        self.push_record(command, output, None, false)
    }

    /// Record a completed command. Returns its identifier.
    pub fn push_command(&mut self, command: String, output: String, exit_code: Option<i32>) -> (id:
        u64)
        requires
            old(self)@.seq_counter < u64::MAX,
        ensures
            final(self)@ == old(self)@.completed(command@, output@, exit_code),
            id == final(self)@.seq_counter,
    {
        self.push_record(command, output, exit_code, true)
    }

    fn push_record(
        &mut self,
        command: String,
        output: String,
        exit_code: Option<i32>,
        done: bool,
    ) -> (id: u64)
        requires
            old(self)@.seq_counter < u64::MAX,
        ensures
            final(self)@ == old(self)@.with_record(
                RecordModel {
                    id: old(self)@.seq_counter + 1,
                    command: command@,
                    output: output@,
                    exit_code,
                    output_done: done,
                    completed: done,
                    read_cursor: 0,
                    timestamp: old(self)@.now,
                },
            ),
            id == final(self)@.seq_counter,
    {
        self.seq_counter = self.seq_counter + 1;
        let id: u64 = self.seq_counter;
        let record = CommandRecord {
            id,
            command,
            output,
            exit_code,
            output_done: done,
            completed: done,
            read_cursor: 0,
            timestamp: self.now,
        };
        let ghost model = record@;
        self.commands.push_front(record);
        assert(records(self.commands@) =~= seq![model] + old(self)@.commands);
        self.commands.truncate(MAX_COMMAND_HISTORY);
        assert(records(self.commands@) =~= capped(
            seq![model] + old(self)@.commands,
            MAX_COMMAND_HISTORY as int,
        ));
        id
    }

    /// The command in progress, if any.
    pub fn active_command(&self) -> (r: Option<&CommandRecord>)
        ensures
            match r {
                Some(c) => self@.commands.len() > 0 && c@ == self@.commands[0] && !c.completed,
                None => self@.commands.len() == 0 || self@.commands[0].completed,
            },
    {
        if self.commands.len() > 0 && !self.commands[0].completed {
            Some(&self.commands[0])
        } else {
            None
        }
    }

    /// The command in progress, if any, to be changed.
    pub fn active_command_mut(&mut self) -> (r: Option<&mut CommandRecord>)
        ensures
            match r {
                Some(c) => {
                    &&& old(self)@.commands.len() > 0
                    &&& c@ == old(self)@.commands[0]
                    &&& !c.completed
                    &&& final(self)@ == (StateModel {
                        commands: old(self)@.commands.update(0, final(c)@),
                        ..old(self)@
                    })
                },
                None => (old(self)@.commands.len() == 0 || old(self)@.commands[0].completed)
                    && final(self)@ == old(self)@,
            },
    {
        if self.commands.len() > 0 && !self.commands[0].completed {
            let ghost before = self.commands@;
            assert(forall|x: CommandRecord| #[trigger]
                records(before.update(0, x)) =~= records(before).update(0, x@));
            Some(record_mut(&mut self.commands, 0))
        } else {
            None
        }
    }

    /// Append output to the command in progress, unless its output is done.
    pub fn append_active_output(&mut self, text: &str)
        ensures
            final(self)@ == (StateModel {
                commands: if old(self)@.commands.len() > 0 && !old(self)@.commands[0].completed
                    && !old(self)@.commands[0].output_done {
                    old(self)@.commands.update(
                        0,
                        RecordModel {
                            output: old(self)@.commands[0].output + text@,
                            ..old(self)@.commands[0]
                        },
                    )
                } else {
                    old(self)@.commands
                },
                ..old(self)@
            }),
    {
        if self.commands.len() > 0 && !self.commands[0].completed && !self.commands[0].output_done {
            let ghost before = self.commands@;
            assert(forall|x: CommandRecord| #[trigger]
                records(before.update(0, x)) =~= records(before).update(0, x@));
            let c = record_mut(&mut self.commands, 0);
            c.output.append(text);
        }
    }

    /// The command with that identifier.
    pub fn command_by_id(&self, id: u64) -> (r: Option<&CommandRecord>)
        ensures
            match r {
                Some(c) => self@.find_id(id as int, 0) is Some && c@
                    == self@.commands[self@.find_id(id as int, 0)->0],
                None => self@.find_id(id as int, 0) is None,
            },
    {
        match self.position_of(id) {
            Some(i) => Some(&self.commands[i]),
            None => None,
        }
    }

    fn position_of(&self, id: u64) -> (r: Option<usize>)
        ensures
            match r {
                Some(i) => self@.find_id(id as int, 0) == Some(i as int) && i
                    < self@.commands.len(),
                None => self@.find_id(id as int, 0) is None,
            },
    {
        let mut i: usize = 0;
        while i < self.commands.len()
            invariant
                i <= self.commands@.len(),
                self@.find_id(id as int, 0) == self@.find_id(id as int, i as int),
            decreases self.commands@.len() - i,
        {
            assert(self@.commands[i as int] == self.commands@[i as int]@);
            if self.commands[i].id == id {
                return Some(i);
            }
            i = i + 1;
        }
        None
    }

    /// The command with that identifier, to be changed.
    pub fn command_by_id_mut(&mut self, id: u64) -> (r: Option<&mut CommandRecord>)
        ensures
            match r {
                Some(c) => {
                    &&& old(self)@.find_id(id as int, 0) is Some
                    &&& c@ == old(self)@.commands[old(self)@.find_id(id as int, 0)->0]
                    &&& final(self)@ == (StateModel {
                        commands: old(self)@.commands.update(
                            old(self)@.find_id(id as int, 0)->0,
                            final(c)@,
                        ),
                        ..old(self)@
                    })
                },
                None => old(self)@.find_id(id as int, 0) is None && final(self)@ == old(self)@,
            },
    {
        match self.position_of(id) {
            Some(i) => {
                let ghost before = self.commands@;
                assert(forall|x: CommandRecord| #[trigger]
                    records(before.update(i as int, x)) =~= records(before).update(i as int, x@));
                Some(record_mut(&mut self.commands, i))
            },
            None => None,
        }
    }

    /// The most recent `n` commands, newest first.
    pub fn recent_commands(&self, n: usize) -> (r: Vec<&CommandRecord>)
        ensures
            r@.len() == capped(self@.commands, n as int).len(),
            forall|i: int| 0 <= i < r@.len() ==> (#[trigger] r@[i])@ == self@.commands[i],
    {
        let mut out: Vec<&CommandRecord> = Vec::new();
        let mut i: usize = 0;
        while i < self.commands.len() && i < n
            invariant
                i <= self.commands@.len(),
                i <= n,
                out@.len() == i,
                forall|j: int| 0 <= j < i ==> (#[trigger] out@[j])@ == self@.commands[j],
            decreases self.commands@.len() - i,
        {
            assert(self@.commands[i as int] == self.commands@[i as int]@);
            out.push(&self.commands[i]);
            i = i + 1;
        }
        out
    }

    /// Take user, host and directory from an OSC 7 address
    /// `file://[user@]host/path`.
    pub fn update_cwd_from_osc7(&mut self, uri: &str)
        ensures
            final(self)@ == (match address_of(uri@) {
                Some(a) => StateModel { user: a.user, hostname: a.host, cwd: a.path, ..old(self)@ },
                None => old(self)@,
            }),
    {
        let chars = chars_of(uri);
        let scheme = chars_of("file://");
        if !starts_with(chars.as_slice(), scheme.as_slice()) {
            return ;
        }
        let rest = vstd::slice::slice_subrange(chars.as_slice(), scheme.len(), chars.len());
        let slash: usize = find_char(rest, '/');
        let authority = vstd::slice::slice_subrange(rest, 0, slash);
        let (user, from) = match rfind_char(authority, '@') {
            Some(at) => (
                if at > 0 {
                    Some(substring(authority, 0, at))
                } else {
                    None
                },
                at + 1,
            ),
            None => (None, 0usize),
        };
        let host = substring(authority, from, authority.len());
        let h = host.as_str();
        let local = h.is_empty() || str_eq(h, "localhost") || str_eq(h, "127.0.0.1") || str_eq(
            h,
            "::1",
        );
        self.user = user;
        self.cwd = if slash < rest.len() {
            Some(substring(rest, slash, rest.len()))
        } else {
            None
        };
        self.hostname = if local {
            None
        } else {
            Some(host)
        };
    }
}

impl Default for PaneState {
    fn default() -> (r: Self)
        ensures
            r@ == StateModel::fresh(),
    {
        Self::new()
    }
}

/// An address is read for what it was written of: the user before the last `@`,
/// the host, and the path from the first slash on. The local host, by any of its
/// names, is told by none.
pub proof fn address_is_read(user: Option<Seq<char>>, host: Seq<char>, path: Seq<char>)
    requires
        user matches Some(u) ==> u.len() > 0 && forall|i: int|
            0 <= i < u.len() ==> #[trigger] u[i] != '/',
        forall|i: int| 0 <= i < host.len() ==> #[trigger] host[i] != '/' && host[i] != '@',
        path.len() > 0 ==> path[0] == '/',
    ensures
        ({
            let who = match user {
                Some(u) => u + seq!['@'],
                None => Seq::empty(),
            };
            address_of("file://"@ + who + host + path) == Some(
                AddressModel {
                    user,
                    host: if host.len() == 0 || host == "localhost"@ || host == "127.0.0.1"@ || host
                        == "::1"@ {
                        None
                    } else {
                        Some(host)
                    },
                    path: if path.len() > 0 {
                        Some(path)
                    } else {
                        None
                    },
                },
            )
        }),
{
    let who = match user {
        Some(u) => u + seq!['@'],
        None => Seq::empty(),
    };
    let scheme = "file://"@;
    let uri = scheme + who + host + path;
    assert(uri.subrange(0, scheme.len() as int) =~= scheme);
    let rest = uri.subrange(scheme.len() as int, uri.len() as int);
    assert(rest =~= who + host + path);
    let n = (who + host).len() as int;
    assert forall|i: int| 0 <= i < n implies #[trigger] rest[i] != '/' by {
        if i < who.len() {
            assert(rest[i] == who[i]);
            if let Some(u) = user {
                if i < u.len() {
                    assert(who[i] == u[i]);
                }
            }
        } else {
            assert(rest[i] == host[i - who.len()]);
        }
    }
    if path.len() > 0 {
        assert(rest[n] == path[0]);
    }
    index_of_char_unique(rest, '/', n);
    let authority = rest.subrange(0, n);
    assert(authority =~= who + host);
    let at = who.len() - 1;
    assert forall|i: int| at < i < authority.len() implies #[trigger] authority[i] != '@' by {
        assert(authority[i] == host[i - who.len()]);
    }
    if at >= 0 {
        assert(authority[at] == '@');
    }
    last_index_is_last(authority, '@', at);
    assert(authority.subrange(at + 1, authority.len() as int) =~= host);
    assert(rest.subrange(n, rest.len() as int) =~= path);
    if let Some(u) = user {
        assert(authority.subrange(0, at) =~= u);
    }
}

/// What is no `file://` address tells nothing.
pub proof fn other_addresses_tell_nothing(uri: Seq<char>)
    ensures
        !(uri.len() >= 7 && uri.subrange(0, 7) == "file://"@) ==> address_of(uri) is None,
{
    reveal_strlit("file://");
}

/// The place where a character occurs last.
pub(crate) proof fn last_index_is_last(s: Seq<char>, c: char, at: int)
    requires
        -1 <= at < s.len(),
        at >= 0 ==> s[at] == c,
        forall|i: int| at < i < s.len() ==> #[trigger] s[i] != c,
    ensures
        last_index_of_char(s, c) == at,
    decreases s.len(),
{
    if s.len() > 0 && at < s.len() - 1 {
        assert(s[s.len() - 1] != c);
        assert forall|i: int| at < i < s.drop_last().len() implies #[trigger] s.drop_last()[i] != c by {
            assert(s[i] != c);
        }
        last_index_is_last(s.drop_last(), c, at);
    }
}

/// A record with an identifier is found by it, and no other.
pub proof fn record_is_found_by_id(m: StateModel, id: int, i: int)
    requires
        m.history_ordered(),
        0 <= i <= m.commands.len(),
    ensures
        match m.find_id(id, i) {
            Some(k) => i <= k < m.commands.len() && m.commands[k].id == id,
            None => forall|k: int| i <= k < m.commands.len() ==> (#[trigger] m.commands[k]).id != id,
        },
    decreases m.commands.len() - i,
{
    if i < m.commands.len() && m.commands[i].id != id {
        record_is_found_by_id(m, id, i + 1);
    }
}

/// A command that starts is the newest of the history: with an identifier of its
/// own, no output, no exit code and no end. At most 100 are kept, newest first.
pub proof fn started_command_is_newest(m: StateModel, command: Seq<char>)
    requires
        m.history_ordered(),
    ensures
        ({
            let now = m.started(command);
            &&& now.commands.len() == (if m.commands.len() < 100 {
                m.commands.len() + 1
            } else {
                100
            })
            &&& now.commands[0].command == command
            &&& now.commands[0].output.len() == 0
            &&& now.commands[0].exit_code is None
            &&& !now.commands[0].completed && !now.commands[0].output_done
            &&& now.commands[0].read_cursor == 0
            &&& forall|i: int|
                0 <= i < m.commands.len() ==> now.commands[0].id > (#[trigger] m.commands[i]).id
            &&& forall|i: int|
                1 <= i < now.commands.len() ==> #[trigger] now.commands[i] == m.commands[i - 1]
            &&& now == (StateModel {
                commands: now.commands,
                seq_counter: m.seq_counter + 1,
                ..m
            })
        }),
{
}

} // verus!
