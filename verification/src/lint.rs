//! Command linting: catches patterns that the tool's own parameters replace.
//!
//! Piping to `head`, `tail` or `grep` throws output away that the command
//! history would keep. The pipe lints read the parsed command line, so quoting
//! and pipeline structure are respected.

use crate::mcp::{middle_is_told, tells};
use crate::pattern::{captures, groups_view, regex_groups};
use crate::policy::parse::{extract_words, words_of};
use crate::shell::{
    parse_script, script_of, unquote, unquoted, Chain, ChainLink, CommandKind, CommandList,
    CommandPart, ListEntry, PipeSequence, Script, ShellCommand,
};
use crate::text::{
    chars_of, contains_chars, decimal, decimal_string, ends_with, has_substring, has_suffix, join,
    joined, parse_u64, parsed_u64, str_eq, string_of, texts, trim, trim_chars, trim_end,
    trim_end_chars, trim_end_is_prefix, trimmed, white_space, written_numbers_are_read,
};
use vstd::prelude::*;
use vstd::slice::slice_subrange;
use vstd::string::StringExecFns;

verus! {

/// Why a command is rejected.
#[derive(Debug)]
pub struct LintError {
    pub message: String,
}

/// A pipeline whose last command is the one looked for: that command's words,
/// and the pipeline without it.
pub ghost struct PipelineEndModel {
    pub args: Seq<Seq<char>>,
    pub base: Seq<char>,
}

/// The texts of the first `n` commands of a pipeline.
pub open spec fn command_texts(seq: Seq<ShellCommand>, n: int) -> Seq<Seq<char>> {
    Seq::new(n as nat, |i: int| seq[i].text@)
}

/// The name of a command, where it is a simple one.
pub open spec fn simple_name(c: ShellCommand) -> Option<Seq<char>> {
    match c.kind {
        CommandKind::Simple(p) => match p.word_or_name {
            Some(w) => Some(w@),
            None => None,
        },
        _ => None,
    }
}

/// The items after a simple command's name.
pub open spec fn simple_suffix(c: ShellCommand) -> Seq<CommandPart> {
    match c.kind {
        CommandKind::Simple(p) => match p.suffix {
            Some(v) => v@,
            None => Seq::empty(),
        },
        _ => Seq::empty(),
    }
}

/// The end of a pipeline of at least two commands, where the last is `target`.
pub open spec fn pipeline_end(p: PipeSequence, target: Seq<char>) -> Option<PipelineEndModel> {
    let n = p.seq@.len();
    if n >= 2 && simple_name(p.seq@[n - 1]) == Some(target) {
        Some(
            PipelineEndModel {
                args: words_of(simple_suffix(p.seq@[n - 1])),
                base: joined(command_texts(p.seq@, n - 1), " | "@),
            },
        )
    } else {
        None
    }
}

/// The first such end among the further pipelines of a chain, from `i` on.
pub open spec fn links_end(links: Seq<ChainLink>, i: int, target: Seq<char>) -> Option<
    PipelineEndModel,
>
    decreases links.len() - i,
{
    if i < 0 || i >= links.len() {
        None
    } else if pipeline_end(links[i].pipeline, target) is Some {
        pipeline_end(links[i].pipeline, target)
    } else {
        links_end(links, i + 1, target)
    }
}

/// The first such end in a chain.
pub open spec fn chain_end(chain: Chain, target: Seq<char>) -> Option<PipelineEndModel> {
    if pipeline_end(chain.first, target) is Some {
        pipeline_end(chain.first, target)
    } else {
        links_end(chain.additional@, 0, target)
    }
}

/// The first such end in a list, from entry `i` on.
pub open spec fn list_end(items: Seq<ListEntry>, i: int, target: Seq<char>) -> Option<
    PipelineEndModel,
>
    decreases items.len() - i,
{
    if i < 0 || i >= items.len() {
        None
    } else if chain_end(items[i].chain, target) is Some {
        chain_end(items[i].chain, target)
    } else {
        list_end(items, i + 1, target)
    }
}

/// The first such end in a program, from list `i` on. Only pipelines at the top
/// level count.
pub open spec fn script_end(lists: Seq<CommandList>, i: int, target: Seq<char>) -> Option<
    PipelineEndModel,
>
    decreases lists.len() - i,
{
    if i < 0 || i >= lists.len() {
        None
    } else if list_end(lists[i].items@, 0, target) is Some {
        list_end(lists[i].items@, 0, target)
    } else {
        script_end(lists, i + 1, target)
    }
}

/// A pipeline whose last command is the one looked for.
struct PipelineEnd {
    args: Vec<String>,
    base: String,
}

/// What an optional end is, mathematically.
spec fn end_view(e: Option<PipelineEnd>) -> Option<PipelineEndModel> {
    match e {
        Some(p) => Some(PipelineEndModel { args: texts(p.args@), base: p.base@ }),
        None => None,
    }
}

/// The commands `seq[..n]` as "cmd1 | cmd2 | ...".
fn render_pipeline_prefix(seq: &[ShellCommand], n: usize) -> (r: String)
    requires
        n <= seq@.len(),
    ensures
        r@ == joined(command_texts(seq@, n as int), " | "@),
{
    let mut parts: Vec<String> = Vec::new();
    let mut i: usize = 0;
    while i < n
        invariant
            i <= n <= seq@.len(),
            parts@.len() == i,
            forall|j: int| 0 <= j < i ==> (#[trigger] parts@[j])@ == seq@[j].text@,
        decreases n - i,
    {
        parts.push(seq[i].text.clone());
        i = i + 1;
    }
    assert(texts(parts@) =~= command_texts(seq@, n as int));
    join(parts.as_slice(), " | ")
}

/// The end of a pipeline of at least two commands, where the last is `target`.
fn check_pipeline(p: &PipeSequence, target: &str) -> (r: Option<PipelineEnd>)
    ensures
        end_view(r) == pipeline_end(*p, target@),
{
    let n: usize = p.seq.len();
    if n < 2 {
        return None;
    }
    let simple = match &p.seq[n - 1].kind {
        CommandKind::Simple(s) => s,
        _ => {
            return None;
        },
    };
    let name = match &simple.word_or_name {
        Some(w) => w,
        None => {
            return None;
        },
    };
    if !str_eq(name.as_str(), target) {
        return None;
    }
    let args = match &simple.suffix {
        Some(v) => extract_words(v.as_slice()),
        None => extract_words(&[]),
    };
    assert(texts(args@) =~= words_of(simple_suffix(p.seq@[n - 1])));
    let base = render_pipeline_prefix(p.seq.as_slice(), n - 1);
    Some(PipelineEnd { args, base })
}

/// The first such end in a chain.
fn walk_and_or(chain: &Chain, target: &str) -> (r: Option<PipelineEnd>)
    ensures
        end_view(r) == chain_end(*chain, target@),
{
    let hit = check_pipeline(&chain.first, target);
    if hit.is_some() {
        return hit;
    }
    let mut i: usize = 0;
    while i < chain.additional.len()
        invariant
            i <= chain.additional@.len(),
            pipeline_end(chain.first, target@) is None,
            links_end(chain.additional@, 0, target@) == links_end(
                chain.additional@,
                i as int,
                target@,
            ),
        decreases chain.additional@.len() - i,
    {
        let hit = check_pipeline(&chain.additional[i].pipeline, target);
        if hit.is_some() {
            return hit;
        }
        i = i + 1;
    }
    None
}

/// The first such end in a list.
fn walk_compound_list(list: &CommandList, target: &str) -> (r: Option<PipelineEnd>)
    ensures
        end_view(r) == list_end(list.items@, 0, target@),
{
    let mut i: usize = 0;
    while i < list.items.len()
        invariant
            i <= list.items@.len(),
            list_end(list.items@, 0, target@) == list_end(list.items@, i as int, target@),
        decreases list.items@.len() - i,
    {
        let hit = walk_and_or(&list.items[i].chain, target);
        if hit.is_some() {
            return hit;
        }
        i = i + 1;
    }
    None
}

/// The first pipeline of a program that ends with a command named `target`.
fn find_pipeline_ending_with(script: &Script, target: &str) -> (r: Option<PipelineEnd>)
    ensures
        end_view(r) == script_end(script.lists@, 0, target@),
{
    let mut i: usize = 0;
    while i < script.lists.len()
        invariant
            i <= script.lists@.len(),
            script_end(script.lists@, 0, target@) == script_end(
                script.lists@,
                i as int,
                target@,
            ),
        decreases script.lists@.len() - i,
    {
        let hit = walk_compound_list(&script.lists[i], target);
        if hit.is_some() {
            return hit;
        }
        i = i + 1;
    }
    None
}

/// The pattern of a line count in the arguments of `head` and `tail`.
pub const LINE_COUNT: &'static str = "-n?\\s*(\\d+)|-(\\d+)";

/// The group `k` of a match, where it took part.
pub open spec fn group(groups: Seq<Option<Seq<char>>>, k: int) -> Option<Seq<char>> {
    if 0 <= k < groups.len() {
        groups[k]
    } else {
        None
    }
}

/// The number in the first of two groups that took part.
pub open spec fn counted(groups: Option<Seq<Option<Seq<char>>>>) -> Option<u64> {
    match groups {
        Some(g) => match if group(g, 1) is Some {
            group(g, 1)
        } else {
            group(g, 2)
        } {
            Some(s) => parsed_u64(s),
            None => None,
        },
        None => None,
    }
}

/// The view of an optional match.
pub open spec fn opt_groups(v: Option<Vec<Option<String>>>) -> Option<Seq<Option<Seq<char>>>> {
    match v {
        Some(g) => Some(groups_view(g@)),
        None => None,
    }
}

/// The number in the first of two groups that took part.
pub fn line_count(groups: &Option<Vec<Option<String>>>) -> (r: Option<u64>)
    ensures
        r == counted(opt_groups(*groups)),
{
    let g = match groups {
        Some(g) => g,
        None => {
            return None;
        },
    };
    let ghost all = groups_view(g@);
    assert(forall|i: int|
        0 <= i < g@.len() ==> #[trigger] all[i] == crate::text::opt_text(g@[i]));
    let mut k: usize = 1;
    while k <= 2
        invariant
            1 <= k <= 3,
            all == groups_view(g@),
            forall|i: int|
                0 <= i < g@.len() ==> #[trigger] all[i] == crate::text::opt_text(g@[i]),
            *groups == Some(*g),
            forall|j: int| 1 <= j < k ==> #[trigger] group(all, j) is None,
        decreases 3 - k,
    {
        if k < g.len() {
            if let Some(s) = &g[k] {
                let digits = chars_of(s.as_str());
                assert(group(all, k as int) == Some(s@));
                return parse_u64(digits.as_slice());
            }
        }
        assert(group(all, k as int) is None);
        k = k + 1;
    }
    assert(group(all, 1) is None && group(all, 2) is None);
    None
}

/// The line count in arguments like "-5", "-n 10" and "-n10".
pub fn extract_line_count(args: &str) -> (r: Option<u64>)
    ensures
        r == counted(regex_groups(LINE_COUNT@, args@)),
{
    line_count(&captures(LINE_COUNT, args))
}

/// The search pattern among the arguments of `grep`: the first that is no
/// option, without quotes.
pub open spec fn grep_pattern(args: Seq<Seq<char>>) -> Seq<char>
    decreases args.len(),
{
    if args.len() == 0 {
        "pattern"@
    } else if args[0].len() > 0 && args[0][0] == '-' {
        grep_pattern(args.drop_first())
    } else {
        unquoted(args[0])
    }
}

/// The search pattern among the arguments of `grep`.
fn extract_grep_pattern(args: &[String]) -> (r: String)
    ensures
        r@ == grep_pattern(texts(args@)),
{
    let ghost all = texts(args@);
    let mut i: usize = 0;
    assert(all.subrange(0, all.len() as int) =~= all);
    while i < args.len()
        invariant
            i <= args@.len(),
            all == texts(args@),
            grep_pattern(all) == grep_pattern(all.subrange(i as int, all.len() as int)),
        decreases args@.len() - i,
    {
        let ghost rest = all.subrange(i as int, all.len() as int);
        assert(rest[0] == args@[i as int]@);
        assert(rest.drop_first() =~= all.subrange(i + 1, all.len() as int));
        let chars = chars_of(args[i].as_str());
        if !(chars.len() > 0 && chars[0] == '-') {
            return unquote(args[i].as_str());
        }
        i = i + 1;
    }
    "pattern".to_owned()
}

/// A rejection that suggests another call.
pub open spec fn suggestion(
    first: Seq<char>,
    command: Seq<char>,
    base: Seq<char>,
    extra: Seq<char>,
    last: Seq<char>,
) -> Seq<char> {
    first + "\n\nInstead of:  command_run(command=\""@ + command
        + "\")\nTry:         command_run(command=\""@ + base + "\""@ + extra + ")\n\n"@ + last
}

/// A rejection without another call to suggest.
pub open spec fn rejection(first: Seq<char>, command: Seq<char>, last: Seq<char>) -> Seq<char> {
    first + "\n\nRejected:    command_run(command=\""@ + command + "\")\n\n"@ + last
}

/// A rejection that suggests another call.
fn suggest(first: &str, command: &str, base: &str, extra: &str, last: &str) -> (r: LintError)
    ensures
        r.message@ == suggestion(first@, command@, base@, extra@, last@),
{
    let mut m = first.to_owned();
    m.append("\n\nInstead of:  command_run(command=\"");
    m.append(command);
    m.append("\")\nTry:         command_run(command=\"");
    m.append(base);
    m.append("\"");
    m.append(extra);
    m.append(")\n\n");
    m.append(last);
    LintError { message: m }
}

/// A rejection without another call to suggest.
fn reject(first: &str, command: &str, last: &str) -> (r: LintError)
    ensures
        r.message@ == rejection(first@, command@, last@),
{
    let mut m = first.to_owned();
    m.append("\n\nRejected:    command_run(command=\"");
    m.append(command);
    m.append("\")\n\n");
    m.append(last);
    LintError { message: m }
}

/// The line count among the words of an end; 20 where there is none.
pub open spec fn count_in(args: Seq<Seq<char>>) -> nat {
    match counted(regex_groups(LINE_COUNT@, joined(args, " "@))) {
        Some(n) => n as nat,
        None => 20,
    }
}

/// What is said about a pipeline that ends with `target`.
pub open spec fn pipe_message(
    end: PipelineEndModel,
    command: Seq<char>,
    target: Seq<char>,
) -> Option<Seq<char>> {
    let kept = "This preserves full output in history. Use command_read(search=...) to search it later."@;
    if target == "tail"@ {
        Some(
            suggestion(
                "Don't pipe to tail — use the tail parameter instead."@,
                command,
                end.base,
                ", tail="@ + decimal(count_in(end.args)),
                kept,
            ),
        )
    } else if target == "head"@ {
        Some(
            suggestion(
                "Don't pipe to head — use the head parameter instead."@,
                command,
                end.base,
                ", head="@ + decimal(count_in(end.args)),
                kept,
            ),
        )
    } else if target == "grep"@ || target == "egrep"@ || target == "fgrep"@ || target == "rg"@ {
        Some(
            suggestion(
                "Don't pipe to grep — use the search parameter instead."@,
                command,
                end.base,
                ", search=\""@ + grep_pattern(end.args) + "\""@,
                "search supports full regex. This preserves full output for multiple different searches."@,
            ),
        )
    } else if target == "tee"@ {
        Some(
            suggestion(
                "Don't pipe to tee — output is already saved in command history."@,
                command,
                end.base,
                Seq::empty(),
                "Use command_read to access full output as many times as needed."@,
            ),
        )
    } else {
        None
    }
}

/// What is said about a program that pipes to `target`.
pub open spec fn pipe_lint(script: Script, command: Seq<char>, target: Seq<char>) -> Option<
    Seq<char>,
> {
    match script_end(script.lists@, 0, target) {
        Some(end) => pipe_message(end, command, target),
        None => None,
    }
}

/// The message of an optional error.
pub open spec fn message_of(e: Option<LintError>) -> Option<Seq<char>> {
    match e {
        Some(x) => Some(x.message@),
        None => None,
    }
}

/// Reject a program that pipes to `target`.
fn lint_pipe_to(script: &Script, command: &str, target: &str) -> (r: Option<LintError>)
    ensures
        message_of(r) == pipe_lint(*script, command@, target@),
{
    let hit = match find_pipeline_ending_with(script, target) {
        Some(h) => h,
        None => {
            return None;
        },
    };
    let kept = "This preserves full output in history. Use command_read(search=...) to search it later.";
    if str_eq(target, "tail") || str_eq(target, "head") {
        let all = join(hit.args.as_slice(), " ");
        let n: u64 = match extract_line_count(all.as_str()) {
            Some(n) => n,
            None => 20,
        };
        let count = decimal_string(n);
        if str_eq(target, "tail") {
            let mut extra = ", tail=".to_owned();
            extra.append(count.as_str());
            return Some(
                suggest(
                    "Don't pipe to tail — use the tail parameter instead.",
                    command,
                    hit.base.as_str(),
                    extra.as_str(),
                    kept,
                ),
            );
        }
        let mut extra = ", head=".to_owned();
        extra.append(count.as_str());
        return Some(
            suggest(
                "Don't pipe to head — use the head parameter instead.",
                command,
                hit.base.as_str(),
                extra.as_str(),
                kept,
            ),
        );
    }
    if str_eq(target, "grep") || str_eq(target, "egrep") || str_eq(target, "fgrep") || str_eq(
        target,
        "rg",
    ) {
        let pattern = extract_grep_pattern(hit.args.as_slice());
        let mut extra = ", search=\"".to_owned();
        extra.append(pattern.as_str());
        extra.append("\"");
        return Some(
            suggest(
                "Don't pipe to grep — use the search parameter instead.",
                command,
                hit.base.as_str(),
                extra.as_str(),
                "search supports full regex. This preserves full output for multiple different searches.",
            ),
        );
    }
    if str_eq(target, "tee") {
        let none = String::new();
        return Some(
            suggest(
                "Don't pipe to tee — output is already saved in command history.",
                command,
                hit.base.as_str(),
                none.as_str(),
                "Use command_read to access full output as many times as needed.",
            ),
        );
    }
    None
}

/// The text of the first `n` further pipelines of a chain, each with its
/// operator.
pub open spec fn links_text(links: Seq<ChainLink>, n: int) -> Seq<char>
    decreases n,
{
    if n <= 0 || n > links.len() {
        Seq::empty()
    } else {
        links_text(links, n - 1) + (if links[n - 1].is_and {
            " && "@
        } else {
            " || "@
        }) + links[n - 1].pipeline.text@
    }
}

/// The text of a chain with the first `n` of its further pipelines.
pub open spec fn chain_text(chain: Chain, n: int) -> Seq<char> {
    chain.first.text@ + links_text(chain.additional@, n)
}

/// The text of the first `n` entries of a list, the last one with its separator
/// only where that is `&`. Where `cut`, the last entry is without its last
/// pipeline.
pub open spec fn entries_text(items: Seq<ListEntry>, n: int, k: int, cut: bool) -> Seq<char>
    decreases k,
{
    if k <= 0 || k > n || n > items.len() {
        Seq::empty()
    } else {
        let e = items[k - 1];
        let links = e.chain.additional@.len();
        let separator = if e.background {
            "&"@
        } else if k == n {
            Seq::empty()
        } else {
            ";"@
        };
        entries_text(items, n, k - 1, cut) + (if k > 1 {
            "\n"@
        } else {
            Seq::empty()
        }) + chain_text(
            e.chain,
            if cut && k == n {
                links - 1
            } else {
                links as int
            },
        ) + separator
    }
}

/// The text of a list's first `n` entries.
pub open spec fn list_text(items: Seq<ListEntry>, n: int, cut: bool) -> Seq<char> {
    entries_text(items, n, n, cut)
}

/// The text of the first `n` lists.
pub open spec fn lists_text(lists: Seq<CommandList>, n: int) -> Seq<char>
    decreases n,
{
    if n <= 0 || n > lists.len() {
        Seq::empty()
    } else {
        lists_text(lists, n - 1) + list_text(
            lists[n - 1].items@,
            lists[n - 1].items@.len() as int,
            false,
        )
    }
}

/// The text of a program without its last command.
pub open spec fn shortened_text(lists: Seq<CommandList>) -> Seq<char> {
    let n = lists.len() as int;
    let items = lists[n - 1].items@;
    let m = items.len() as int;
    if items[m - 1].chain.additional@.len() > 0 {
        lists_text(lists, n - 1) + list_text(items, m, true)
    } else {
        lists_text(lists, n - 1) + list_text(items, m - 1, false)
    }
}

/// The text of a chain with the first `n` of its further pipelines.
fn render_chain(chain: &Chain, n: usize) -> (r: String)
    requires
        n <= chain.additional@.len(),
    ensures
        r@ == chain_text(*chain, n as int),
{
    let mut out = chain.first.text.clone();
    let mut i: usize = 0;
    assert(out@ + links_text(chain.additional@, 0) =~= out@);
    while i < n
        invariant
            i <= n <= chain.additional@.len(),
            out@ == chain_text(*chain, i as int),
        decreases n - i,
    {
        let ghost before = out@;
        if chain.additional[i].is_and {
            out.append(" && ");
        } else {
            out.append(" || ");
        }
        out.append(chain.additional[i].pipeline.text.as_str());
        i = i + 1;
        assert(out@ =~= chain_text(*chain, i as int));
    }
    out
}

/// The text of a list's first `n` entries.
fn render_entries(items: &[ListEntry], n: usize, cut: bool) -> (r: String)
    requires
        n <= items@.len(),
        cut ==> n > 0 && items@[n - 1].chain.additional@.len() > 0,
    ensures
        r@ == list_text(items@, n as int, cut),
{
    let mut out = String::new();
    let mut k: usize = 0;
    while k < n
        invariant
            k <= n <= items@.len(),
            cut ==> n > 0 && items@[n - 1].chain.additional@.len() > 0,
            out@ == entries_text(items@, n as int, k as int, cut),
        decreases n - k,
    {
        let ghost before = out@;
        let e = &items[k];
        if k > 0 {
            out.append("\n");
        } else {
            assert(out@ + Seq::<char>::empty() =~= out@);
        }
        let links: usize = e.chain.additional.len();
        let upto: usize = if cut && k + 1 == n {
            links - 1
        } else {
            links
        };
        let text = render_chain(&e.chain, upto);
        out.append(text.as_str());
        if e.background {
            out.append("&");
        } else if k + 1 < n {
            out.append(";");
        } else {
            assert(out@ + Seq::<char>::empty() =~= out@);
        }
        k = k + 1;
        assert(out@ =~= entries_text(items@, n as int, k as int, cut));
    }
    out
}

/// The text of the first `n` lists.
fn render_lists(lists: &[CommandList], n: usize) -> (r: String)
    requires
        n <= lists@.len(),
    ensures
        r@ == lists_text(lists@, n as int),
{
    let mut out = String::new();
    let mut i: usize = 0;
    while i < n
        invariant
            i <= n <= lists@.len(),
            out@ == lists_text(lists@, i as int),
        decreases n - i,
    {
        let text = render_entries(lists[i].items.as_slice(), lists[i].items.len(), false);
        out.append(text.as_str());
        i = i + 1;
    }
    out
}

/// The text of a program without its last command; `None` where nothing is
/// left.
fn render_without_trailing_command(script: &Script) -> (r: Option<String>)
    requires
        script.lists@.len() > 0,
        script.lists@[script.lists@.len() - 1].items@.len() > 0,
    ensures
        match r {
            Some(t) => t@ == trimmed(shortened_text(script.lists@)) && t@.len() > 0,
            None => trimmed(shortened_text(script.lists@)).len() == 0,
        },
{
    let n: usize = script.lists.len();
    let items = script.lists[n - 1].items.as_slice();
    let m: usize = items.len();
    let mut out = render_lists(script.lists.as_slice(), n - 1);
    let rest = if items[m - 1].chain.additional.len() > 0 {
        render_entries(items, m, true)
    } else {
        render_entries(items, m - 1, false)
    };
    out.append(rest.as_str());
    let t = trim(out.as_str());
    if t.as_str().is_empty() {
        None
    } else {
        Some(t)
    }
}

/// The last pipeline of a program, where there is one.
pub open spec fn last_pipeline(lists: Seq<CommandList>) -> Option<PipeSequence> {
    if lists.len() == 0 || lists.last().items@.len() == 0 {
        None
    } else {
        let chain = lists.last().items@.last().chain;
        if chain.additional@.len() == 0 {
            Some(chain.first)
        } else {
            Some(chain.additional@.last().pipeline)
        }
    }
}

/// Whether an item mentions the exit status.
pub open spec fn mentions_status(item: CommandPart) -> bool {
    match item {
        CommandPart::Word(w) => has_substring(w@, "$?"@) || has_substring(w@, "${?}"@),
        _ => false,
    }
}

/// Whether a command prints the exit status: a lone `echo` or `printf` that
/// mentions it and is not redirected.
pub open spec fn prints_status(p: PipeSequence) -> bool {
    &&& p.seq@.len() == 1
    &&& simple_name(p.seq@[0]) == Some("echo"@) || simple_name(p.seq@[0]) == Some("printf"@)
    &&& forall|i: int|
        0 <= i < simple_suffix(p.seq@[0]).len() ==> !((#[trigger] simple_suffix(
            p.seq@[0],
        )[i]) is Redirect)
    &&& exists|i: int|
        0 <= i < simple_suffix(p.seq@[0]).len() && mentions_status(
            #[trigger] simple_suffix(p.seq@[0])[i],
        )
}

/// Whether a command runs before the last one.
pub open spec fn has_preceding(lists: Seq<CommandList>) -> bool {
    lists.len() > 1 || lists.last().items@.len() > 1
        || lists.last().items@.last().chain.additional@.len() > 0
}

/// What is said about a program that ends by printing the exit status.
pub open spec fn status_lint(script: Script, command: Seq<char>) -> Option<Seq<char>> {
    match last_pipeline(script.lists@) {
        None => None,
        Some(p) => if !prints_status(p) {
            None
        } else if has_preceding(script.lists@) {
            let base = trimmed(shortened_text(script.lists@));
            if base.len() == 0 {
                None
            } else {
                Some(
                    suggestion(
                        "Don't echo $? — command_run already reports each command's exit code."@,
                        command,
                        base,
                        Seq::empty(),
                        "The exit status of the last command is captured and shown automatically; reading it back with echo just duplicates it. To branch on the status, use it directly (e.g. `cmd && on_success || on_failure`)."@,
                    ),
                )
            }
        } else {
            Some(
                rejection(
                    "Don't re-run a command to read $? — use the command_history tool."@,
                    command,
                    "command_history lists recent commands with their exit codes, captured directly when each command finished. A bare `echo $?` in a new command_run is fragile: the shell prompt runs between runs and can reset $?."@,
                ),
            )
        },
    }
}

/// Whether a pipeline prints the exit status.
fn is_status_print(p: &PipeSequence) -> (r: bool)
    ensures
        r == prints_status(*p),
{
    if p.seq.len() != 1 {
        return false;
    }
    let simple = match &p.seq[0].kind {
        CommandKind::Simple(s) => s,
        _ => {
            return false;
        },
    };
    match &simple.word_or_name {
        Some(name) => {
            if !str_eq(name.as_str(), "echo") && !str_eq(name.as_str(), "printf") {
                return false;
            }
        },
        None => {
            return false;
        },
    }
    let items = match &simple.suffix {
        Some(v) => v,
        None => {
            return false;
        },
    };
    assert(items@ == simple_suffix(p.seq@[0]));
    let status = chars_of("$?");
    let braced = chars_of("${?}");
    let mut found: bool = false;
    let mut i: usize = 0;
    while i < items.len()
        invariant
            i <= items@.len(),
            items@ == simple_suffix(p.seq@[0]),
            status@ == "$?"@,
            braced@ == "${?}"@,
            forall|j: int| 0 <= j < i ==> !((#[trigger] items@[j]) is Redirect),
            found == exists|j: int| 0 <= j < i && mentions_status(#[trigger] items@[j]),
        decreases items@.len() - i,
    {
        match &items[i] {
            CommandPart::Redirect(_) => {
                assert(simple_suffix(p.seq@[0])[i as int] is Redirect);
                return false;
            },
            CommandPart::Word(w) => {
                let chars = chars_of(w.as_str());
                if contains_chars(chars.as_slice(), status.as_slice()) || contains_chars(
                    chars.as_slice(),
                    braced.as_slice(),
                ) {
                    found = true;
                }
            },
            _ => {},
        }
        i = i + 1;
    }
    found
}

/// Reject reading back the exit code with `echo` or `printf`.
fn lint_exit_status_echo(script: &Script, command: &str) -> (r: Option<LintError>)
    ensures
        message_of(r) == status_lint(*script, command@),
{
    let n: usize = script.lists.len();
    if n == 0 {
        return None;
    }
    let items = &script.lists[n - 1].items;
    let m: usize = items.len();
    if m == 0 {
        return None;
    }
    let chain = &items[m - 1].chain;
    let k: usize = chain.additional.len();
    let pipeline = if k == 0 {
        &chain.first
    } else {
        &chain.additional[k - 1].pipeline
    };
    if !is_status_print(pipeline) {
        return None;
    }
    if n > 1 || m > 1 || k > 0 {
        let base = match render_without_trailing_command(script) {
            Some(b) => b,
            None => {
                return None;
            },
        };
        let none = String::new();
        Some(
            suggest(
                "Don't echo $? — command_run already reports each command's exit code.",
                command,
                base.as_str(),
                none.as_str(),
                "The exit status of the last command is captured and shown automatically; reading it back with echo just duplicates it. To branch on the status, use it directly (e.g. `cmd && on_success || on_failure`).",
            ),
        )
    } else {
        Some(
            reject(
                "Don't re-run a command to read $? — use the command_history tool.",
                command,
                "command_history lists recent commands with their exit codes, captured directly when each command finished. A bare `echo $?` in a new command_run is fragile: the shell prompt runs between runs and can reset $?.",
            ),
        )
    }
}

/// What is said about a command that ends by redirecting stderr to stdout.
pub open spec fn stderr_lint(command: Seq<char>) -> Option<Seq<char>> {
    let t = trim_end(command);
    if has_suffix(t, "2>&1"@) {
        Some(
            suggestion(
                "Don't redirect stderr — it's already captured."@,
                command,
                trimmed(t.subrange(0, t.len() - "2>&1"@.len())),
                Seq::empty(),
                "Both stdout and stderr are visible in the terminal and captured automatically."@,
            ),
        )
    } else {
        None
    }
}

/// Reject a command that ends by redirecting stderr to stdout.
fn lint_stderr_redirect(command: &str) -> (r: Option<LintError>)
    ensures
        message_of(r) == stderr_lint(command@),
{
    let chars = chars_of(command);
    let t = trim_end_chars(chars.as_slice());
    let mark = chars_of("2>&1");
    if !ends_with(t, mark.as_slice()) {
        return None;
    }
    let base = string_of(trim_chars(slice_subrange(t, 0, t.len() - mark.len())));
    let none = String::new();
    Some(
        suggest(
            "Don't redirect stderr — it's already captured.",
            command,
            base.as_str(),
            none.as_str(),
            "Both stdout and stderr are visible in the terminal and captured automatically.",
        ),
    )
}

/// Whether a command ends with a single `&`.
pub open spec fn in_background(command: Seq<char>) -> bool {
    let t = trim_end(command);
    t.len() > 0 && t.last() == '&' && (t.len() == 1 || t[t.len() - 2] != '&')
}

/// What is said about a command in the background.
pub open spec fn background_lint(command: Seq<char>) -> Option<Seq<char>> {
    if in_background(command) {
        Some(
            rejection(
                "Don't background commands with & — use a separate pane instead."@,
                command,
                "Background jobs bypass output capture and can't be monitored reliably. Use list_panes to find or create another pane and run the command there."@,
            ),
        )
    } else {
        None
    }
}

/// Reject a command in the background.
fn lint_background_job(command: &str) -> (r: Option<LintError>)
    ensures
        message_of(r) == background_lint(command@),
{
    let chars = chars_of(command);
    let t = trim_end_chars(chars.as_slice());
    let n: usize = t.len();
    if n > 0 && t[n - 1] == '&' && (n == 1 || t[n - 2] != '&') {
        Some(
            reject(
                "Don't background commands with & — use a separate pane instead.",
                command,
                "Background jobs bypass output capture and can't be monitored reliably. Use list_panes to find or create another pane and run the command there.",
            ),
        )
    } else {
        None
    }
}

/// The first of two messages that is there.
pub open spec fn first_message(a: Option<Seq<char>>, b: Option<Seq<char>>) -> Option<Seq<char>> {
    if a is Some {
        a
    } else {
        b
    }
}

/// What the lints on a parsed command line say.
pub open spec fn script_lint(script: Script, command: Seq<char>) -> Option<Seq<char>> {
    first_message(
        pipe_lint(script, command, "tail"@),
        first_message(
            pipe_lint(script, command, "head"@),
            first_message(
                pipe_lint(script, command, "grep"@),
                first_message(
                    pipe_lint(script, command, "egrep"@),
                    first_message(
                        pipe_lint(script, command, "fgrep"@),
                        first_message(
                            pipe_lint(script, command, "rg"@),
                            first_message(
                                pipe_lint(script, command, "tee"@),
                                status_lint(script, command),
                            ),
                        ),
                    ),
                ),
            ),
        ),
    )
}

/// What the lints say about a command. Those on its structure come first, where
/// it parses.
pub open spec fn lint_of(command: Seq<char>) -> Option<Seq<char>> {
    first_message(
        match script_of(command) {
            Ok(script) => script_lint(script, command),
            Err(_) => None,
        },
        first_message(stderr_lint(command), background_lint(command)),
    )
}

/// The lints on a parsed command line.
pub fn lint_script(script: &Script, command: &str) -> (r: Option<LintError>)
    ensures
        message_of(r) == script_lint(*script, command@),
{
    let hit = lint_pipe_to(script, command, "tail");
    if hit.is_some() {
        return hit;
    }
    let hit = lint_pipe_to(script, command, "head");
    if hit.is_some() {
        return hit;
    }
    let hit = lint_pipe_to(script, command, "grep");
    if hit.is_some() {
        return hit;
    }
    let hit = lint_pipe_to(script, command, "egrep");
    if hit.is_some() {
        return hit;
    }
    let hit = lint_pipe_to(script, command, "fgrep");
    if hit.is_some() {
        return hit;
    }
    let hit = lint_pipe_to(script, command, "rg");
    if hit.is_some() {
        return hit;
    }
    let hit = lint_pipe_to(script, command, "tee");
    if hit.is_some() {
        return hit;
    }
    lint_exit_status_echo(script, command)
}

/// Lint a command before it runs.
pub fn lint_command_run(command: &str) -> (r: Result<(), LintError>)
    ensures
        match r {
            Ok(_) => lint_of(command@) is None,
            Err(e) => lint_of(command@) == Some(e.message@),
        },
{
    if let Ok(script) = parse_script(command) {
        if let Some(e) = lint_script(&script, command) {
            return Err(e);
        }
    }
    if let Some(e) = lint_stderr_redirect(command) {
        return Err(e);
    }
    if let Some(e) = lint_background_job(command) {
        return Err(e);
    }
    Ok(())
}

/// The pattern of a command that changes directory first.
pub const CD_PREFIX: &'static str = "^cd\\s+(\\S+)\\s*(?:&&|;)\\s*(.+)$";

/// `s` without its trailing slashes.
pub open spec fn unslashed(s: Seq<char>) -> Seq<char>
    decreases s.len(),
{
    if s.len() > 0 && s.last() == '/' {
        unslashed(s.drop_last())
    } else {
        s
    }
}

/// What is said about a command that first changes to the directory it is in.
/// `groups` are those of `CD_PREFIX`: the target, and the rest of the command.
pub open spec fn cd_lint(
    groups: Option<Seq<Option<Seq<char>>>>,
    command: Seq<char>,
    cwd: Seq<char>,
) -> Option<Seq<char>> {
    match groups {
        None => None,
        Some(g) => match (group(g, 1), group(g, 2)) {
            (Some(target), Some(rest)) => if unslashed(target) == "."@ || unslashed(target)
                == unslashed(cwd) {
                Some(
                    suggestion(
                        "Redundant cd — the pane is already in that directory."@,
                        command,
                        rest,
                        Seq::empty(),
                        "The pane's working directory is already "@ + cwd + "."@,
                    ),
                )
            } else {
                None
            },
            _ => None,
        },
    }
}

/// `s` without its trailing slashes.
fn without_slashes(s: &str) -> (r: String)
    ensures
        r@ == unslashed(s@),
{
    let chars = chars_of(s);
    let mut n: usize = chars.len();
    assert(chars@.subrange(0, n as int) =~= chars@);
    while n > 0 && chars[n - 1] == '/'
        invariant
            n <= chars@.len(),
            unslashed(s@) == unslashed(chars@.subrange(0, n as int)),
        decreases n,
    {
        assert(chars@.subrange(0, n as int).drop_last() =~= chars@.subrange(0, n - 1));
        n = n - 1;
    }
    crate::text::substring(chars.as_slice(), 0, n)
}

/// Reject a command that first changes to the directory it is in, given the
/// match of `CD_PREFIX`.
pub fn lint_cd_groups(groups: &Option<Vec<Option<String>>>, command: &str, cwd: &str) -> (r: Option<
    LintError,
>)
    ensures
        message_of(r) == cd_lint(opt_groups(*groups), command@, cwd@),
{
    let g = match groups {
        Some(g) => g,
        None => {
            return None;
        },
    };
    let ghost all = groups_view(g@);
    assert(forall|i: int|
        0 <= i < g@.len() ==> #[trigger] all[i] == crate::text::opt_text(g@[i]));
    if g.len() <= 2 {
        assert(group(all, 2) is None);
        return None;
    }
    match (&g[1], &g[2]) {
        (Some(target), Some(rest)) => {
            assert(group(all, 1) == Some(target@) && group(all, 2) == Some(rest@));
            let clean = without_slashes(target.as_str());
            let here = without_slashes(cwd);
            if str_eq(clean.as_str(), ".") || str_eq(clean.as_str(), here.as_str()) {
                let mut last = "The pane's working directory is already ".to_owned();
                last.append(cwd);
                last.append(".");
                let none = String::new();
                Some(
                    suggest(
                        "Redundant cd — the pane is already in that directory.",
                        command,
                        rest.as_str(),
                        none.as_str(),
                        last.as_str(),
                    ),
                )
            } else {
                None
            }
        },
        _ => None,
    }
}

/// Reject `cd <path> && ...` where `<path>` is the pane's directory.
pub fn lint_cd_to_cwd(command: &str, cwd: &str) -> (r: Result<(), LintError>)
    ensures
        match r {
            Ok(_) => cd_lint(regex_groups(CD_PREFIX@, command@), command@, cwd@) is None,
            Err(e) => cd_lint(regex_groups(CD_PREFIX@, command@), command@, cwd@) == Some(
                e.message@,
            ),
        },
{
    match lint_cd_groups(&captures(CD_PREFIX, command), command, cwd) {
        Some(e) => Err(e),
        None => Ok(()),
    }
}

/// Whether a pipeline hands its output to a command of that name: it has two or
/// more commands, and the last is a simple one of that name.
pub open spec fn pipes_to(p: PipeSequence, name: Seq<char>) -> bool {
    p.seq@.len() >= 2 && (p.seq@.last().kind matches CommandKind::Simple(c) && (
    c.word_or_name matches Some(w) && w@ == name))
}

/// The pipelines of a chain: the first, and those after `&&` and `||`.
pub open spec fn in_chain(p: PipeSequence, chain: Chain) -> bool {
    p == chain.first || exists|k: int|
        0 <= k < chain.additional@.len() && p == (#[trigger] chain.additional@[k]).pipeline
}

/// The pipelines of a program that stand in no compound command.
pub open spec fn at_top_level(p: PipeSequence, script: Script) -> bool {
    exists|i: int, j: int|
        0 <= i < script.lists@.len() && 0 <= j < script.lists@[i].items@.len() && in_chain(
            p,
            (#[trigger] script.lists@[i].items@[j]).chain,
        )
}

/// The commands that the tool's own parameters replace.
pub open spec fn is_replaced(name: Seq<char>) -> bool {
    name == "tail"@ || name == "head"@ || name == "grep"@ || name == "egrep"@ || name == "fgrep"@
        || name == "rg"@ || name == "tee"@
}

/// Searching a chain finds a pipeline exactly where there is one.
proof fn chain_search_is_complete(chain: Chain, i: int, target: Seq<char>)
    requires
        0 <= i <= chain.additional@.len(),
    ensures
        links_end(chain.additional@, i, target) is Some <==> exists|k: int|
            i <= k < chain.additional@.len() && pipes_to(
                (#[trigger] chain.additional@[k]).pipeline,
                target,
            ),
    decreases chain.additional@.len() - i,
{
    if i < chain.additional@.len() {
        chain_search_is_complete(chain, i + 1, target);
        let p = chain.additional@[i].pipeline;
        assert(pipeline_end(p, target) is Some <==> pipes_to(p, target));
        if links_end(chain.additional@, i, target) is Some && !pipes_to(p, target) {
            let k = choose|k: int|
                i + 1 <= k < chain.additional@.len() && pipes_to(
                    (#[trigger] chain.additional@[k]).pipeline,
                    target,
                );
            assert(pipes_to(chain.additional@[k].pipeline, target));
        }
    }
}

/// Searching a list finds a pipeline exactly where there is one.
proof fn list_search_is_complete(items: Seq<ListEntry>, i: int, target: Seq<char>)
    requires
        0 <= i <= items.len(),
    ensures
        list_end(items, i, target) is Some <==> exists|j: int, p: PipeSequence|
            i <= j < items.len() && #[trigger] in_chain(p, (#[trigger] items[j]).chain) && pipes_to(
                p,
                target,
            ),
    decreases items.len() - i,
{
    if i < items.len() {
        list_search_is_complete(items, i + 1, target);
        let chain = items[i].chain;
        chain_search_is_complete(chain, 0, target);
        assert(pipeline_end(chain.first, target) is Some <==> pipes_to(chain.first, target));
        if chain_end(chain, target) is Some {
            if pipes_to(chain.first, target) {
                assert(in_chain(chain.first, items[i].chain));
            } else {
                let k = choose|k: int|
                    0 <= k < chain.additional@.len() && pipes_to(
                        (#[trigger] chain.additional@[k]).pipeline,
                        target,
                    );
                assert(in_chain(chain.additional@[k].pipeline, items[i].chain));
            }
        } else if list_end(items, i + 1, target) is Some {
            let (j, p) = choose|j: int, p: PipeSequence|
                i + 1 <= j < items.len() && #[trigger] in_chain(p, (#[trigger] items[j]).chain)
                    && pipes_to(p, target);
            assert(in_chain(p, items[j].chain));
        }
        if exists|j: int, p: PipeSequence|
            i <= j < items.len() && #[trigger] in_chain(p, (#[trigger] items[j]).chain) && pipes_to(
                p,
                target,
            ) {
            let (j, p) = choose|j: int, p: PipeSequence|
                i <= j < items.len() && #[trigger] in_chain(p, (#[trigger] items[j]).chain)
                    && pipes_to(p, target);
            if j > i {
                assert(in_chain(p, items[j].chain));
            } else if p != chain.first {
                let k = choose|k: int|
                    0 <= k < chain.additional@.len() && p == (
                    #[trigger] chain.additional@[k]).pipeline;
                assert(pipes_to(chain.additional@[k].pipeline, target));
            }
        }
    }
}

/// Searching a program finds a pipeline exactly where there is one.
proof fn script_search_is_complete(script: Script, i: int, target: Seq<char>)
    requires
        0 <= i <= script.lists@.len(),
    ensures
        script_end(script.lists@, i, target) is Some <==> exists|n: int, j: int, p: PipeSequence|
            i <= n < script.lists@.len() && 0 <= j < script.lists@[n].items@.len()
                && #[trigger] in_chain(p, (#[trigger] script.lists@[n].items@[j]).chain) && pipes_to(
                p,
                target,
            ),
    decreases script.lists@.len() - i,
{
    let lists = script.lists@;
    if i < lists.len() {
        script_search_is_complete(script, i + 1, target);
        list_search_is_complete(lists[i].items@, 0, target);
        if list_end(lists[i].items@, 0, target) is Some {
            let (j, p) = choose|j: int, p: PipeSequence|
                0 <= j < lists[i].items@.len() && #[trigger] in_chain(
                    p,
                    (#[trigger] lists[i].items@[j]).chain,
                ) && pipes_to(p, target);
            assert(in_chain(p, script.lists@[i].items@[j].chain));
        } else if script_end(lists, i + 1, target) is Some {
            let (n, j, p) = choose|n: int, j: int, p: PipeSequence|
                i + 1 <= n < lists.len() && 0 <= j < script.lists@[n].items@.len()
                    && #[trigger] in_chain(p, (#[trigger] script.lists@[n].items@[j]).chain)
                    && pipes_to(p, target);
            assert(in_chain(p, script.lists@[n].items@[j].chain));
        }
        if exists|n: int, j: int, p: PipeSequence|
            i <= n < script.lists@.len() && 0 <= j < script.lists@[n].items@.len()
                && #[trigger] in_chain(p, (#[trigger] script.lists@[n].items@[j]).chain) && pipes_to(
                p,
                target,
            ) {
            let (n, j, p) = choose|n: int, j: int, p: PipeSequence|
                i <= n < script.lists@.len() && 0 <= j < script.lists@[n].items@.len()
                    && #[trigger] in_chain(p, (#[trigger] script.lists@[n].items@[j]).chain)
                    && pipes_to(p, target);
            assert(in_chain(p, script.lists@[n].items@[j].chain));
            if n == i {
                assert(in_chain(p, lists[i].items@[j].chain));
            }
        }
    }
}

/// A program is rejected for a pipe to one of the replaced commands exactly where
/// one of its pipelines at the top level hands its output to it: whichever list
/// and chain the pipeline stands in, first or after `&&` or `||`.
pub proof fn every_pipeline_is_linted(script: Script, command: Seq<char>, target: Seq<char>)
    requires
        is_replaced(target),
    ensures
        pipe_lint(script, command, target) is Some <==> exists|p: PipeSequence| #[trigger]
            at_top_level(p, script) && pipes_to(p, target),
{
    script_search_is_complete(script, 0, target);
    if script_end(script.lists@, 0, target) is Some {
        let (n, j, p) = choose|n: int, j: int, p: PipeSequence|
            0 <= n < script.lists@.len() && 0 <= j < script.lists@[n].items@.len()
                && #[trigger] in_chain(p, (#[trigger] script.lists@[n].items@[j]).chain) && pipes_to(
                p,
                target,
            );
        assert(at_top_level(p, script));
    }
    if exists|p: PipeSequence| #[trigger] at_top_level(p, script) && pipes_to(p, target) {
        let p = choose|p: PipeSequence| #[trigger] at_top_level(p, script) && pipes_to(p, target);
        let (i, j) = choose|i: int, j: int|
            0 <= i < script.lists@.len() && 0 <= j < script.lists@[i].items@.len() && in_chain(
                p,
                (#[trigger] script.lists@[i].items@[j]).chain,
            );
        assert(in_chain(p, script.lists@[i].items@[j].chain));
    }
}

/// A command that parses passes the lints only if no pipeline of it at the top
/// level hands its output to a command that the tool's own parameters replace.
pub proof fn accepted_command_pipes_to_none(
    command: Seq<char>,
    script: Script,
    p: PipeSequence,
    name: Seq<char>,
)
    requires
        script_of(command) == Ok::<Script, Seq<char>>(script),
        lint_of(command) is None,
        at_top_level(p, script),
        is_replaced(name),
    ensures
        !pipes_to(p, name),
{
    if pipes_to(p, name) {
        every_pipeline_is_linted(script, command, name);
        assert(pipe_lint(script, command, name) is Some);
    }
}

/// Whether a pipeline prints the exit status: one simple command, `echo` or
/// `printf`, with a word that holds `$?` or `${?}`, and nothing redirected.
pub open spec fn is_status_echo(p: PipeSequence) -> bool {
    p.seq@.len() == 1 && (p.seq@[0].kind matches CommandKind::Simple(c) && (
    c.word_or_name matches Some(w) && (w@ == "echo"@ || w@ == "printf"@)) && (
    c.suffix matches Some(items) && (forall|i: int|
        0 <= i < items@.len() ==> !((#[trigger] items@[i]) is Redirect)) && exists|i: int|
        0 <= i < items@.len() && ((#[trigger] items@[i]) matches CommandPart::Word(t) && (
        has_substring(t@, "$?"@) || has_substring(t@, "${?}"@)))))
}

/// Whether a pipeline is the last that a program runs: the last of its last
/// chain.
pub open spec fn is_last_pipeline(p: PipeSequence, script: Script) -> bool {
    script.lists@.len() > 0 && script.lists@.last().items@.len() > 0 && ({
        let chain = script.lists@.last().items@.last().chain;
        if chain.additional@.len() > 0 {
            p == chain.additional@.last().pipeline
        } else {
            p == chain.first
        }
    })
}

/// A command that parses passes the lints only if its last pipeline does not
/// print the exit status, unless there is no text left without that pipeline.
/// Where no pipeline stands before it, it is always rejected.
pub proof fn accepted_command_prints_no_status(command: Seq<char>, script: Script, p: PipeSequence)
    requires
        script_of(command) == Ok::<Script, Seq<char>>(script),
        lint_of(command) is None,
        is_last_pipeline(p, script),
        is_status_echo(p),
    ensures
        script.lists@.len() > 1 || script.lists@.last().items@.len() > 1
            || script.lists@.last().items@.last().chain.additional@.len() > 0,
        trimmed(shortened_text(script.lists@)).len() == 0,
{
    let items = (p.seq@[0].kind->Simple_0).suffix->Some_0;
    let i = choose|i: int|
        0 <= i < items@.len() && ((#[trigger] items@[i]) matches CommandPart::Word(t) && (
        has_substring(t@, "$?"@) || has_substring(t@, "${?}"@)));
    assert(simple_suffix(p.seq@[0]) == items@);
    assert(mentions_status(simple_suffix(p.seq@[0])[i]));
    assert(prints_status(p));
}

/// A command that ends with a redirection of stderr to stdout, or in the
/// background, whatever white space follows, does not pass the lints; `&&` at the
/// end is not the background.
pub proof fn accepted_command_ends_plainly(front: Seq<char>, mark: Seq<char>, space: Seq<char>)
    requires
        forall|i: int| 0 <= i < space.len() ==> white_space(#[trigger] space[i]),
        mark == "2>&1"@ || (mark == "&"@ && (front.len() == 0 || front.last() != '&')),
    ensures
        lint_of(front + mark + space) is Some,
{
    reveal_strlit("2>&1");
    reveal_strlit("&");
    let command = front + mark + space;
    let n = (front + mark).len() as int;
    assert(command.subrange(0, n) =~= front + mark);
    assert forall|i: int| n <= i < command.len() implies white_space(#[trigger] command[i]) by {
        assert(command[i] == space[i - n]);
    }
    assert(command[n - 1] == mark.last());
    trim_end_is_prefix(command, n);
    let t = trim_end(command);
    assert(t == front + mark);
    if mark == "2>&1"@ {
        assert(t.subrange(t.len() - mark.len(), t.len() as int) =~= mark);
        assert(has_suffix(t, mark));
    } else {
        assert(t.last() == '&');
        if t.len() > 1 {
            assert(t[t.len() - 2] == front.last());
        }
    }
}

/// A command that parses passes the lints where no pipeline of it pipes to a
/// replaced command, its last pipeline does not print the exit status, and its
/// end is neither a redirection of stderr to stdout nor `&`.
pub proof fn plain_command_is_accepted(
    command: Seq<char>,
    script: Script,
    front: Seq<char>,
    space: Seq<char>,
)
    requires
        script_of(command) == Ok::<Script, Seq<char>>(script),
        forall|p: PipeSequence, name: Seq<char>|
            #[trigger] at_top_level(p, script) && is_replaced(name) ==> !#[trigger] pipes_to(
                p,
                name,
            ),
        forall|p: PipeSequence| #[trigger] is_last_pipeline(p, script) ==> !is_status_echo(p),
        command == front + space,
        forall|i: int| 0 <= i < space.len() ==> white_space(#[trigger] space[i]),
        front.len() > 0 ==> !white_space(front.last()) && front.last() != '&' && !(front.len() >= 4
            && front[front.len() - 4] == '2' && front[front.len() - 3] == '>' && front[front.len()
            - 2] == '&' && front[front.len() - 1] == '1'),
    ensures
        lint_of(command) is None,
{
    every_pipeline_is_linted(script, command, "tail"@);
    every_pipeline_is_linted(script, command, "head"@);
    every_pipeline_is_linted(script, command, "grep"@);
    every_pipeline_is_linted(script, command, "egrep"@);
    every_pipeline_is_linted(script, command, "fgrep"@);
    every_pipeline_is_linted(script, command, "rg"@);
    every_pipeline_is_linted(script, command, "tee"@);
    if let Some(p) = last_pipeline(script.lists@) {
        assert(is_last_pipeline(p, script));
        if prints_status(p) {
            let items = simple_suffix(p.seq@[0]);
            let i = choose|i: int|
                0 <= i < items.len() && mentions_status(#[trigger] items[i]);
            let c = p.seq@[0].kind->Simple_0;
            assert(c.suffix is Some);
            assert(items == (c.suffix->Some_0)@);
            assert((c.suffix->Some_0)@[i] is Word);
            assert(is_status_echo(p));
        }
    }
    let n = front.len() as int;
    assert(command.subrange(0, n) =~= front);
    assert forall|i: int| n <= i < command.len() implies white_space(#[trigger] command[i]) by {
        assert(command[i] == space[i - n]);
    }
    if n > 0 {
        assert(command[n - 1] == front.last());
    }
    trim_end_is_prefix(command, n);
    reveal_strlit("2>&1");
    if has_suffix(front, "2>&1"@) {
        let end = front.subrange(n - 4, n);
        assert(end[0] == front[n - 4] && end[1] == front[n - 3] && end[2] == front[n - 2] && end[3]
            == front[n - 1]);
        assert(end[0] == '2' && end[1] == '>' && end[2] == '&' && end[3] == '1');
    }
}

/// A suggestion tells the command, and the call to make in its place.
proof fn suggested_call_is_told(
    first: Seq<char>,
    command: Seq<char>,
    base: Seq<char>,
    extra: Seq<char>,
    last: Seq<char>,
)
    ensures
        tells(suggestion(first, command, base, extra, last), command),
        tells(
            suggestion(first, command, base, extra, last),
            "command_run(command=\""@ + base + "\""@ + extra + ")"@,
        ),
{
    let m = suggestion(first, command, base, extra, last);
    let a = first + "\n\nInstead of:  command_run(command=\""@;
    let b = "\")\nTry:         command_run(command=\""@;
    let c = ")\n\n"@;
    let call = "command_run(command=\""@ + base + "\""@ + extra + ")"@;
    reveal_strlit("\")\nTry:         command_run(command=\"");
    reveal_strlit("command_run(command=\"");
    reveal_strlit("\")\nTry:         ");
    reveal_strlit(")\n\n");
    reveal_strlit(")");
    reveal_strlit("\n\n");
    assert(b =~= "\")\nTry:         "@ + "command_run(command=\""@);
    assert(c =~= ")"@ + "\n\n"@);
    assert(m =~= a + command + (b + base + "\""@ + extra + c + last));
    middle_is_told(a, command, b + base + "\""@ + extra + c + last);
    assert(m =~= (a + command + "\")\nTry:         "@) + call + ("\n\n"@ + last));
    middle_is_told(a + command + "\")\nTry:         "@, call, "\n\n"@ + last);
}

/// In place of a pipe to `tail` or `head` the call is suggested that runs the rest
/// of the pipeline and asks for as many lines; in place of a pipe to `grep` the one
/// that searches for the first argument that is no option; in place of `tee` the
/// plain call.
pub proof fn replacement_is_suggested(p: PipeSequence, command: Seq<char>, name: Seq<char>)
    requires
        pipes_to(p, name),
        is_replaced(name),
    ensures
        pipeline_end(p, name) matches Some(end) && (pipe_message(end, command, name) matches Some(
            m,
        ) && tells(m, command) && tells(
            m,
            "command_run(command=\""@ + joined(
                Seq::new((p.seq@.len() - 1) as nat, |i: int| p.seq@[i].text@),
                " | "@,
            ) + "\""@ + (if name == "tail"@ {
                ", tail="@ + decimal(count_in(words_of(simple_suffix(p.seq@.last()))))
            } else if name == "head"@ {
                ", head="@ + decimal(count_in(words_of(simple_suffix(p.seq@.last()))))
            } else if name == "tee"@ {
                Seq::empty()
            } else {
                ", search=\""@ + grep_pattern(words_of(simple_suffix(p.seq@.last()))) + "\""@
            }) + ")"@,
        )),
{
    let end = pipeline_end(p, name)->0;
    let n = p.seq@.len();
    assert(p.seq@.last() == p.seq@[n - 1]);
    assert(command_texts(p.seq@, n - 1) =~= Seq::new(
        (n - 1) as nat,
        |i: int| p.seq@[i].text@,
    ));
    reveal_strlit("tail");
    reveal_strlit("head");
    reveal_strlit("grep");
    reveal_strlit("egrep");
    reveal_strlit("fgrep");
    reveal_strlit("rg");
    reveal_strlit("tee");
    assert("tail"@[0] == 't' && "head"@[0] == 'h' && "grep"@[0] == 'g' && "egrep"@[0] == 'e'
        && "fgrep"@[0] == 'f' && "rg"@[0] == 'r' && "tee"@.len() == 3 && "tail"@.len() == 4);
    let kept = "This preserves full output in history. Use command_read(search=...) to search it later."@;
    suggested_call_is_told(
        "Don't pipe to tail — use the tail parameter instead."@,
        command,
        end.base,
        ", tail="@ + decimal(count_in(end.args)),
        kept,
    );
    suggested_call_is_told(
        "Don't pipe to head — use the head parameter instead."@,
        command,
        end.base,
        ", head="@ + decimal(count_in(end.args)),
        kept,
    );
    suggested_call_is_told(
        "Don't pipe to grep — use the search parameter instead."@,
        command,
        end.base,
        ", search=\""@ + grep_pattern(end.args) + "\""@,
        "search supports full regex. This preserves full output for multiple different searches."@,
    );
    suggested_call_is_told(
        "Don't pipe to tee — output is already saved in command history."@,
        command,
        end.base,
        Seq::empty(),
        "Use command_read to access full output as many times as needed."@,
    );
}

/// A written number of lines is read, from whichever of the two groups holds it,
/// and the pattern of `grep` is the first argument that is no option.
pub proof fn counts_and_patterns_are_read(
    n: u64,
    whole: Option<Seq<char>>,
    options: Seq<Seq<char>>,
    pattern: Seq<char>,
    rest: Seq<Seq<char>>,
)
    requires
        forall|i: int| 0 <= i < options.len() ==> (#[trigger] options[i]).len() > 0 && options[i][0] == '-',
        pattern.len() == 0 || pattern[0] != '-',
    ensures
        counted(Some(seq![whole, Some(decimal(n as nat)), None])) == Some(n),
        counted(Some(seq![whole, None, Some(decimal(n as nat))])) == Some(n),
        counted(None) is None,
        grep_pattern(options + seq![pattern] + rest) == unquoted(pattern),
    decreases options.len(),
{
    written_numbers_are_read(n as nat);
    let all = options + seq![pattern] + rest;
    if options.len() > 0 {
        let fewer = options.drop_first();
        assert forall|i: int| 0 <= i < fewer.len() implies (#[trigger] fewer[i]).len() > 0
            && fewer[i][0] == '-' by {
            assert(fewer[i] == options[i + 1]);
        }
        counts_and_patterns_are_read(n, whole, fewer, pattern, rest);
        assert(all[0] == options[0]);
        assert(all.drop_first() =~= fewer + seq![pattern] + rest);
    } else {
        assert(all[0] == pattern);
    }
}

/// Trailing slashes are dropped, and nothing else.
proof fn trailing_slashes_are_dropped(s: Seq<char>, slashes: Seq<char>)
    requires
        s.len() == 0 || s.last() != '/',
        forall|i: int| 0 <= i < slashes.len() ==> #[trigger] slashes[i] == '/',
    ensures
        unslashed(s + slashes) == s,
    decreases slashes.len(),
{
    let all = s + slashes;
    if slashes.len() > 0 {
        let fewer = slashes.drop_last();
        assert forall|i: int| 0 <= i < fewer.len() implies #[trigger] fewer[i] == '/' by {
            assert(fewer[i] == slashes[i]);
        }
        trailing_slashes_are_dropped(s, fewer);
        assert(all.last() == slashes[slashes.len() - 1]);
        assert(all.drop_last() =~= s + fewer);
    } else {
        assert(all =~= s);
    }
}

/// A change to the directory that the pane is in, however many slashes are written
/// behind it, is rejected, and the rest of the command suggested; a change to
/// another one is not.
pub proof fn only_a_change_in_place_is_redundant(
    dir: Seq<char>,
    other: Seq<char>,
    slashes: Seq<char>,
    more: Seq<char>,
    whole: Option<Seq<char>>,
    rest: Seq<char>,
    command: Seq<char>,
)
    requires
        dir.len() == 0 || dir.last() != '/',
        other.len() == 0 || other.last() != '/',
        forall|i: int| 0 <= i < slashes.len() ==> #[trigger] slashes[i] == '/',
        forall|i: int| 0 <= i < more.len() ==> #[trigger] more[i] == '/',
        other != dir,
        other != "."@,
    ensures
        cd_lint(Some(seq![whole, Some(dir + slashes), Some(rest)]), command, dir + more) matches Some(m)
            && tells(m, command) && tells(m, "command_run(command=\""@ + rest + "\""@ + ")"@),
        cd_lint(Some(seq![whole, Some("."@), Some(rest)]), command, dir + more) is Some,
        cd_lint(Some(seq![whole, Some(other + slashes), Some(rest)]), command, dir + more) is None,
        cd_lint(None, command, dir) is None,
{
    trailing_slashes_are_dropped(dir, slashes);
    trailing_slashes_are_dropped(dir, more);
    trailing_slashes_are_dropped(other, slashes);
    reveal_strlit(".");
    trailing_slashes_are_dropped("."@, Seq::empty());
    assert("."@ + Seq::empty() =~= "."@);
    suggested_call_is_told(
        "Redundant cd — the pane is already in that directory."@,
        command,
        rest,
        Seq::empty(),
        "The pane's working directory is already "@ + (dir + more) + "."@,
    );
    assert("command_run(command=\""@ + rest + "\""@ + Seq::<char>::empty() + ")"@
        =~= "command_run(command=\""@ + rest + "\""@ + ")"@);
}

/// Without its last command, a chain is its other pipelines, and a list its other
/// entries.
pub proof fn last_command_is_left_out(lists: Seq<CommandList>, e: ListEntry, link: ChainLink)
    requires
        lists.len() == 1,
    ensures
        lists[0].items@ == seq![e] && e.chain.additional@ == seq![link] && !e.background
            ==> shortened_text(lists) == e.chain.first.text@,
        lists[0].items@.len() == 2 && lists[0].items@[0] == e && lists[0].items@[1].chain.additional@.len()
            == 0 && e.chain.additional@.len() == 0 && !e.background ==> shortened_text(lists)
            == e.chain.first.text@,
{
    let items = lists[0].items@;
    reveal_with_fuel(lists_text, 2);
    reveal_with_fuel(entries_text, 3);
    reveal_with_fuel(links_text, 3);
    if items == seq![e] && e.chain.additional@ == seq![link] && !e.background {
        assert(shortened_text(lists) =~= e.chain.first.text@);
    }
    if items.len() == 2 && items[0] == e && items[1].chain.additional@.len() == 0
        && e.chain.additional@.len() == 0 && !e.background {
        assert(shortened_text(lists) =~= e.chain.first.text@);
    }
}

} // verus!
