//! Processes as `/proc` tells of them: what runs in the foreground of a shell.

use crate::text::{chars_of, opt_text, parse_u32, parsed_u32, split_words, texts, trim, trimmed, words_of};
use vstd::prelude::*;

verus! {

/// A shell process.
#[derive(Debug, Clone, PartialEq, Eq)]
pub struct ProcInfo {
    pub pid: u32,
    pub comm: String,
    pub cwd: Option<String>,
    pub foreground: Option<ForegroundProcess>,
}

/// The last process of a chain of only children that starts at the shell.
#[derive(Debug, Clone, PartialEq, Eq)]
pub struct ForegroundProcess {
    pub pid: u32,
    pub comm: String,
}

/// What is known of a process, given what `/proc` holds: nothing where it has no
/// name, since it does not exist then.
pub fn proc_info(
    pid: u32,
    comm: Option<String>,
    cwd: Option<String>,
    foreground: Option<ForegroundProcess>,
) -> (r: Option<ProcInfo>)
    ensures
        match comm {
            None => r is None,
            Some(text) => r matches Some(info) && info.pid == pid && info.comm@ == trimmed(text@)
                && info.cwd == cwd && info.foreground == foreground,
        },
{
    match comm {
        None => None,
        Some(text) => Some(ProcInfo { pid, comm: trim(text.as_str()), cwd, foreground }),
    }
}

/// The numbers among words.
pub open spec fn numbers_in(words: Seq<Seq<char>>) -> Seq<u32>
    decreases words.len(),
{
    if words.len() == 0 {
        Seq::empty()
    } else {
        let before = numbers_in(words.drop_last());
        match parsed_u32(words.last()) {
            Some(n) => before.push(n),
            None => before,
        }
    }
}

/// The children of a process, from the text of its `children` file.
pub fn parse_children(contents: &str) -> (r: Vec<u32>)
    ensures
        r@ == numbers_in(words_of(contents@)),
{
    let words = split_words(contents);
    let ghost all = texts(words@);
    let n: usize = words.len();
    let mut out: Vec<u32> = Vec::new();
    let mut i: usize = 0;
    assert(out@ =~= numbers_in(all.subrange(0, 0)));
    while i < n
        invariant
            i <= n == words@.len(),
            all == texts(words@),
            out@ == numbers_in(all.subrange(0, i as int)),
        decreases n - i,
    {
        let ghost next = all.subrange(0, i + 1);
        assert(next.drop_last() =~= all.subrange(0, i as int));
        assert(next.last() == words@[i as int]@);
        let chars = chars_of(words[i].as_str());
        if let Some(pid) = parse_u32(chars.as_slice()) {
            out.push(pid);
        }
        i = i + 1;
    }
    assert(all.subrange(0, n as int) =~= all);
    out
}

/// Where the walk from a shell to its foreground process goes on.
#[derive(Debug, Clone, Copy, PartialEq, Eq, Structural)]
pub enum WalkStep {
    /// To the only child.
    Descend(u32),
    /// It ends here.
    Leaf(u32),
    /// It never left the shell: nothing runs in the foreground.
    Idle,
}

/// One step of the walk that started at `start` and stands at `current`.
pub open spec fn walk_from(start: u32, current: u32, children: Seq<u32>) -> WalkStep {
    if children.len() == 1 {
        WalkStep::Descend(children[0])
    } else if current == start {
        WalkStep::Idle
    } else {
        WalkStep::Leaf(current)
    }
}

/// One step of the walk that started at `start` and stands at `current`.
pub fn walk_step(start: u32, current: u32, children: &[u32]) -> (r: WalkStep)
    ensures
        r == walk_from(start, current, children@),
{
    if children.len() == 1 {
        WalkStep::Descend(children[0])
    } else if current == start {
        WalkStep::Idle
    } else {
        WalkStep::Leaf(current)
    }
}

/// Where a walk ends that may take `steps` steps, in a table of the children of
/// each process; none where it has not ended by then.
pub open spec fn walk(table: spec_fn(u32) -> Seq<u32>, start: u32, current: u32, steps: nat) -> Option<
    WalkStep,
>
    decreases steps,
{
    match walk_from(start, current, table(current)) {
        WalkStep::Descend(child) => if steps == 0 {
            None
        } else {
            walk(table, start, child, (steps - 1) as nat)
        },
        end => Some(end),
    }
}

/// A walk that ends elsewhere than at its start ends at a process that has no
/// child or several.
pub proof fn walk_ends_at_a_leaf(table: spec_fn(u32) -> Seq<u32>, start: u32, current: u32, steps: nat)
    ensures
        match walk(table, start, current, steps) {
            Some(WalkStep::Leaf(pid)) => pid != start && table(pid).len() != 1,
            Some(WalkStep::Idle) => table(start).len() != 1,
            Some(WalkStep::Descend(_)) => false,
            None => true,
        },
    decreases steps,
{
    if let WalkStep::Descend(child) = walk_from(start, current, table(current)) {
        if steps > 0 {
            walk_ends_at_a_leaf(table, start, child, (steps - 1) as nat);
        }
    }
}

/// What `/proc` holds of a process.
#[derive(Debug, Clone, PartialEq, Eq)]
pub struct ProcEntry {
    pub pid: u32,
    pub comm: Option<String>,
    pub children: Vec<u32>,
}

/// The place of a process in a table, from `i` on; the table's length where it is
/// not there.
pub open spec fn entry_from(table: Seq<ProcEntry>, pid: u32, i: int) -> int
    decreases table.len() - i,
{
    if i < 0 || i >= table.len() {
        table.len() as int
    } else if table[i].pid == pid {
        i
    } else {
        entry_from(table, pid, i + 1)
    }
}

/// The children of each process of a table.
pub open spec fn children_in(table: Seq<ProcEntry>) -> spec_fn(u32) -> Seq<u32> {
    |pid: u32|
        {
            let i = entry_from(table, pid, 0);
            if i < table.len() {
                table[i].children@
            } else {
                Seq::empty()
            }
        }
}

/// The name of a process of a table.
pub open spec fn comm_in(table: Seq<ProcEntry>, pid: u32) -> Option<Seq<char>> {
    let i = entry_from(table, pid, 0);
    if i < table.len() {
        opt_text(table[i].comm)
    } else {
        None
    }
}

/// The place of a process in a table.
fn find_entry(table: &Vec<ProcEntry>, pid: u32) -> (r: Option<usize>)
    ensures
        match r {
            Some(i) => i < table@.len() && entry_from(table@, pid, 0) == i,
            None => entry_from(table@, pid, 0) == table@.len(),
        },
{
    let n: usize = table.len();
    let mut i: usize = 0;
    while i < n
        invariant
            i <= n == table@.len(),
            entry_from(table@, pid, 0) == entry_from(table@, pid, i as int),
        decreases n - i,
    {
        if table[i].pid == pid {
            return Some(i);
        }
        i = i + 1;
    }
    None
}

/// Walk from a shell along only children to the process in its foreground, in a
/// table of what `/proc` holds. None where nothing runs, where the process has no
/// name, and where the walk is longer than the table.
pub fn find_foreground(pid: u32, table: &Vec<ProcEntry>) -> (r: Option<ForegroundProcess>)
    ensures
        match walk(children_in(table@), pid, pid, table@.len()) {
            Some(WalkStep::Leaf(leaf)) => match comm_in(table@, leaf) {
                Some(text) => r matches Some(f) && f.pid == leaf && f.comm@ == trimmed(text),
                None => r is None,
            },
            _ => r is None,
        },
{
    let n: usize = table.len();
    let ghost of = children_in(table@);
    let mut current: u32 = pid;
    let mut left: usize = n;
    loop
        invariant
            n == table@.len(),
            of == children_in(table@),
            left <= n,
            walk(of, pid, pid, n as nat) == walk(of, pid, current, left as nat),
        decreases left,
    {
        let place = find_entry(table, current);
        let step = match place {
            Some(i) => walk_step(pid, current, table[i].children.as_slice()),
            None => if current == pid {
                WalkStep::Idle
            } else {
                WalkStep::Leaf(current)
            },
        };
        assert(step == walk_from(pid, current, of(current)));
        match step {
            WalkStep::Idle => {
                return None;
            },
            WalkStep::Leaf(leaf) => {
                return match place {
                    Some(i) => match &table[i].comm {
                        Some(text) => Some(ForegroundProcess { pid: leaf, comm: trim(text.as_str()) }),
                        None => None,
                    },
                    None => None,
                };
            },
            WalkStep::Descend(child) => {
                if left == 0 {
                    return None;
                }
                left = left - 1;
                current = child;
            },
        }
    }
}

/// The foreground process of a shell, or else the shell itself.
pub open spec fn leaf_of(shell_pid: u32, info: Option<ProcInfo>) -> u32 {
    match info {
        Some(i) => match i.foreground {
            Some(f) => f.pid,
            None => shell_pid,
        },
        None => shell_pid,
    }
}

/// The foreground process of a shell, or else the shell itself.
pub fn get_leaf_pid(shell_pid: u32, info: &Option<ProcInfo>) -> (r: u32)
    ensures
        r == leaf_of(shell_pid, *info),
{
    match info {
        Some(i) => match &i.foreground {
            Some(f) => f.pid,
            None => shell_pid,
        },
        None => shell_pid,
    }
}

/// The name of the foreground process.
pub open spec fn foreground_name(info: Option<ProcInfo>) -> Option<Seq<char>> {
    match info {
        Some(i) => match i.foreground {
            Some(f) => Some(f.comm@),
            None => None,
        },
        None => None,
    }
}

/// The name of the foreground process.
pub fn foreground_comm(info: &Option<ProcInfo>) -> (r: Option<String>)
    ensures
        opt_text(r) == foreground_name(*info),
{
    match info {
        Some(i) => match &i.foreground {
            Some(f) => Some(f.comm.as_str().to_owned()),
            None => None,
        },
        None => None,
    }
}

/// The shell's children are the numbers of the text, in order, and nothing else.
pub proof fn numbers_are_told_in_order(words: Seq<Seq<char>>)
    ensures
        numbers_in(words).len() <= words.len(),
        (forall|i: int| 0 <= i < words.len() ==> parsed_u32(#[trigger] words[i]) is Some)
            ==> numbers_in(words) == Seq::new(words.len(), |i: int| parsed_u32(words[i])->0),
    decreases words.len(),
{
    if words.len() > 0 {
        let front = words.drop_last();
        numbers_are_told_in_order(front);
        if forall|i: int| 0 <= i < words.len() ==> parsed_u32(#[trigger] words[i]) is Some {
            assert forall|i: int| 0 <= i < front.len() implies parsed_u32(#[trigger] front[i])
                is Some by {
                assert(parsed_u32(words[i]) is Some);
            }
            assert(parsed_u32(words[words.len() - 1]) is Some);
            assert(numbers_in(words) =~= Seq::new(words.len(), |i: int| parsed_u32(words[i])->0));
        }
    } else {
        assert(numbers_in(words) =~= Seq::new(words.len(), |i: int| parsed_u32(words[i])->0));
    }
}

/// One child is followed, and a process with none or with several ends the walk: at
/// the shell itself that means that it is idle.
pub proof fn walk_follows_an_only_child(start: u32, current: u32, children: Seq<u32>)
    ensures
        children.len() == 1 ==> walk_from(start, current, children) == WalkStep::Descend(children[0]),
        children.len() != 1 && current == start ==> walk_from(start, current, children) is Idle,
        children.len() != 1 && current != start ==> walk_from(start, current, children)
            == WalkStep::Leaf(current),
{
}

/// The process that a command would go to is the one in the foreground, or else
/// the shell; and it is the one whose name is told.
pub proof fn foreground_is_told(shell_pid: u32, info: ProcInfo)
    ensures
        info.foreground matches Some(f) ==> leaf_of(shell_pid, Some(info)) == f.pid,
        info.foreground is None ==> leaf_of(shell_pid, Some(info)) == shell_pid,
        leaf_of(shell_pid, None) == shell_pid,
        info.foreground matches Some(f) ==> foreground_name(Some(info)) == Some(f.comm@),
{
}

} // verus!
