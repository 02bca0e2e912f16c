//! Command extraction: a parsed command line becomes a flat list of commands.
//!
//! Each entry is a command that will execute. A wrapper (`sudo`, `ssh`) has its
//! inner commands extracted with a reference back to it. Pipelines, logical
//! operators and command substitutions add entries of their own.

use super::args::{parse_args, parsed};
use super::builtin::{builtin_registry, default_registry};
use super::builtins::{list_texts, parsed_args_to_trival, strings_of};
use super::cel::CelExpr;
use super::rules::{eval, eval_expr, strings_to_trivals};
use super::value::{tri_unfold, tris, truth, Tri, TriBool, TriMap, TriVal};
use super::wrappers::WrapperModel;
use crate::shell::{
    has_expansion, parse_script, parse_word, parsed_word, script_of, unquote, unquoted, Chain, ChainLink, CommandKind, CommandList, CommandPart, CompoundForm,
    ElsePart, ListEntry, PlainCommand, RedirectKind, RedirectTarget, Redirection,
    Script, ShellCommand, WordPart,
};
use crate::text::{clone_texts, texts};
use std::sync::Arc;
use vstd::prelude::*;

pub use super::wrappers::{compile_wrappers, CompiledWrapper, WrapperRegistry};
pub use crate::shell::word_has_expansion;

verus! {

broadcast use tri_unfold;

/// A value that a wrapper may have changed.
#[derive(Debug, PartialEq, Eq)]
pub enum Effective {
    /// No wrapper changed it: it is the pane's value.
    Unchanged,
    /// A wrapper set it to this.
    Known(String),
    /// A wrapper set it to something that cannot be known.
    Unknown,
}

/// An `Effective`, mathematically.
pub ghost enum EffectiveModel {
    Unchanged,
    Known(Seq<char>),
    Unknown,
}

impl View for Effective {
    type V = EffectiveModel;

    open spec fn view(&self) -> EffectiveModel {
        match *self {
            Effective::Unchanged => EffectiveModel::Unchanged,
            Effective::Known(s) => EffectiveModel::Known(s@),
            Effective::Unknown => EffectiveModel::Unknown,
        }
    }
}

impl Clone for Effective {
    fn clone(&self) -> (r: Effective)
        ensures
            r@ == self@,
    {
        match self {
            Effective::Unchanged => Effective::Unchanged,
            Effective::Known(s) => Effective::Known(s.clone()),
            Effective::Unknown => Effective::Unknown,
        }
    }
}

/// Whether a wrapper's inner commands were extracted, and what becomes of the
/// wrapper in evaluation.
#[derive(Debug, Clone, Copy, PartialEq, Eq, Structural)]
pub enum InnerExtraction {
    /// Not a wrapper, or extraction failed. Evaluate normally.
    NotExtracted,
    /// All effects are captured on the inner commands. Skip the wrapper.
    Transparent,
    /// The wrapper changes uncaptured state. Evaluate it too.
    Evaluated,
}

/// A shell redirect attached to a command.
#[derive(Debug)]
pub struct RedirectInfo {
    /// The target path or word.
    pub target: String,
    /// True for a write redirect, false for a read.
    pub is_write: bool,
    /// True if the target holds expansions.
    pub has_expansion: bool,
}

/// A `RedirectInfo`, mathematically.
pub ghost struct RedirectModel {
    pub target: Seq<char>,
    pub is_write: bool,
    pub has_expansion: bool,
}

impl View for RedirectInfo {
    type V = RedirectModel;

    open spec fn view(&self) -> RedirectModel {
        RedirectModel {
            target: self.target@,
            is_write: self.is_write,
            has_expansion: self.has_expansion,
        }
    }
}

/// A command that will execute.
#[derive(Debug)]
pub struct CommandInfo {
    /// Command name.
    pub name: String,
    /// Literal arguments.
    pub args: Vec<String>,
    /// False if unknown arguments are possible.
    pub args_complete: bool,
    /// User context, passed down from wrappers.
    pub effective_user: Effective,
    /// Host context, passed down from wrappers.
    pub effective_host: Effective,
    /// Directory context, passed down from wrappers.
    pub effective_cwd: Effective,
    /// True if this command receives piped stdin.
    pub is_pipe_target: bool,
    /// Redirects attached to this command.
    pub redirects: Vec<RedirectInfo>,
    /// Immediate parent wrapper.
    pub parent: Option<Arc<CommandInfo>>,
    /// Whether this is a wrapper with extracted inner commands.
    pub inner: InnerExtraction,
    /// The options that it was given, where it is a wrapper that declares some.
    pub getopt: Option<TriVal>,
}

/// A `CommandInfo`, mathematically.
pub ghost struct CommandModel {
    pub name: Seq<char>,
    pub args: Seq<Seq<char>>,
    pub args_complete: bool,
    pub effective_user: EffectiveModel,
    pub effective_host: EffectiveModel,
    pub effective_cwd: EffectiveModel,
    pub is_pipe_target: bool,
    pub redirects: Seq<RedirectModel>,
    pub parent: Option<Box<CommandModel>>,
    pub inner: InnerExtraction,
    pub getopt: Option<Tri>,
}

/// The redirects of a command, mathematically.
pub open spec fn redirects_of(v: Seq<RedirectInfo>) -> Seq<RedirectModel> {
    Seq::new(v.len(), |i: int| v[i]@)
}

/// The mathematical value of `c`.
pub open spec fn command_model(c: CommandInfo) -> CommandModel
    decreases c,
{
    CommandModel {
        name: c.name@,
        args: texts(c.args@),
        args_complete: c.args_complete,
        effective_user: c.effective_user@,
        effective_host: c.effective_host@,
        effective_cwd: c.effective_cwd@,
        is_pipe_target: c.is_pipe_target,
        redirects: redirects_of(c.redirects@),
        parent: match c.parent {
            Some(p) => Some(Box::new(command_model(*p))),
            None => None,
        },
        inner: c.inner,
        getopt: match c.getopt {
            Some(g) => Some(g@),
            None => None,
        },
    }
}

impl View for CommandInfo {
    type V = CommandModel;

    open spec fn view(&self) -> CommandModel {
        command_model(*self)
    }
}

impl CommandInfo {
    /// A command of that name without arguments.
    pub fn simple(name: &str) -> (r: Self)
        ensures
            r@ == (CommandModel {
                name: name@,
                args: Seq::empty(),
                args_complete: true,
                effective_user: EffectiveModel::Unchanged,
                effective_host: EffectiveModel::Unchanged,
                effective_cwd: EffectiveModel::Unchanged,
                is_pipe_target: false,
                redirects: Seq::empty(),
                parent: None,
                inner: InnerExtraction::NotExtracted,
                getopt: None,
            }),
    {
        let r = Self {
            name: name.to_owned(),
            args: Vec::new(),
            args_complete: true,
            effective_user: Effective::Unchanged,
            effective_host: Effective::Unchanged,
            effective_cwd: Effective::Unchanged,
            is_pipe_target: false,
            redirects: Vec::new(),
            parent: None,
            inner: InnerExtraction::NotExtracted,
            getopt: None,
        };
        assert(texts(r.args@) =~= Seq::<Seq<char>>::empty());
        assert(redirects_of(r.redirects@) =~= Seq::<RedirectModel>::empty());
        r
    }
}

/// The options that `c` was given, as wrapper `w` declares them; none where it
/// declares none.
pub open spec fn wrapper_options(c: CommandModel, w: WrapperModel) -> Option<Tri> {
    match w.getopt {
        Some((style, options)) => Some(
            parsed(
                Seq::new(c.args.len(), |i: int| Tri::Text(c.args[i])),
                style,
                options,
                c.args_complete,
            ).as_tri(),
        ),
        None => None,
    }
}

/// The bindings that a wrapper's expressions are evaluated under.
pub open spec fn wrapper_context(c: CommandModel, w: WrapperModel) -> Map<Seq<char>, Tri> {
    let args = Seq::new(c.args.len(), |i: int| Tri::Text(c.args[i]));
    let command = Map::empty().insert("name"@, Tri::Text(c.name)).insert(
        "args"@,
        Tri::List { elements: args, exhaustive: c.args_complete },
    ).insert(
        "getopt"@,
        match wrapper_options(c, w) {
            Some(g) => g,
            None => Tri::Null,
        },
    );
    Map::empty().insert("command"@, Tri::Object(command))
}

/// Whether a command is this wrapper.
pub open spec fn is_wrapper(c: CommandModel, w: WrapperModel) -> bool {
    truth(eval(w.when, wrapper_context(c, w))) == TriBool::True
}

/// The place of the first wrapper at or after `i` that a command is; the number
/// of wrappers where it is none.
pub open spec fn wrapper_index(c: CommandModel, reg: Seq<WrapperModel>, i: int) -> int
    decreases reg.len() - i,
{
    if i < 0 || i >= reg.len() {
        reg.len() as int
    } else if is_wrapper(c, reg[i]) {
        i
    } else {
        wrapper_index(c, reg, i + 1)
    }
}

/// A captured value: a text is known, unknown stays so, anything else changes
/// nothing.
pub open spec fn effective_of(v: Tri) -> EffectiveModel {
    match v {
        Tri::Text(s) => EffectiveModel::Known(s),
        Tri::Unknown => EffectiveModel::Unknown,
        _ => EffectiveModel::Unchanged,
    }
}

/// What a capture expression yields; `inherited` where there is none.
pub open spec fn captured_value(
    capture: Option<CelExpr>,
    inherited: EffectiveModel,
    ctx: Map<Seq<char>, Tri>,
) -> EffectiveModel {
    match capture {
        Some(e) => effective_of(eval(e, ctx)),
        None => inherited,
    }
}

/// The user, host and directory that a wrapper's inner commands run with.
pub ghost struct Inherited {
    pub user: EffectiveModel,
    pub host: EffectiveModel,
    pub cwd: EffectiveModel,
}

/// What the inner commands of `c`, as wrapper `w`, run with.
pub open spec fn inherited_from(c: CommandModel, w: WrapperModel) -> Inherited {
    let ctx = wrapper_context(c, w);
    Inherited {
        user: captured_value(w.capture_user, c.effective_user, ctx),
        host: captured_value(w.capture_host, c.effective_host, ctx),
        cwd: if w.changes_cwd {
            EffectiveModel::Unknown
        } else {
            c.effective_cwd
        },
    }
}

/// An inner command of `parent`.
pub open spec fn inner_command(
    parent: CommandModel,
    words: Seq<Seq<char>>,
    inherited: Inherited,
    args_complete: bool,
) -> CommandModel {
    CommandModel {
        name: words[0],
        args: words.subrange(1, words.len() as int),
        args_complete,
        effective_user: inherited.user,
        effective_host: inherited.host,
        effective_cwd: inherited.cwd,
        is_pipe_target: false,
        redirects: Seq::empty(),
        parent: Some(Box::new(parent)),
        inner: InnerExtraction::NotExtracted,
        getopt: None,
    }
}

/// Commands of a reparsed text, run by `parent`.
pub open spec fn adopted(
    commands: Seq<CommandModel>,
    parent: CommandModel,
    inherited: Inherited,
) -> Seq<CommandModel> {
    Seq::new(
        commands.len(),
        |i: int|
            CommandModel {
                effective_user: inherited.user,
                effective_host: inherited.host,
                effective_cwd: inherited.cwd,
                parent: Some(Box::new(parent)),
                ..commands[i]
            },
    )
}

/// The words of a suffix.
pub open spec fn words_of(items: Seq<CommandPart>) -> Seq<Seq<char>>
    decreases items.len(),
{
    if items.len() == 0 {
        Seq::empty()
    } else {
        let before = words_of(items.drop_last());
        match items.last() {
            CommandPart::Word(w) => before.push(w@),
            _ => before,
        }
    }
}

/// Whether an item adds arguments that cannot be known.
pub open spec fn is_open_ended(item: CommandPart) -> bool {
    match item {
        CommandPart::Word(w) => has_expansion(w@),
        CommandPart::ProcessSubstitution(_) => true,
        _ => false,
    }
}

/// Whether no item adds arguments that cannot be known.
pub open spec fn is_closed(items: Seq<CommandPart>) -> bool {
    forall|i: int| 0 <= i < items.len() ==> !is_open_ended(#[trigger] items[i])
}

/// The file that a redirection names; none for descriptors and documents.
pub open spec fn redirect_of(r: Redirection) -> Option<RedirectModel> {
    match r {
        Redirection::File { kind, target: RedirectTarget::Filename(word) } => Some(
            RedirectModel {
                target: word@,
                is_write: kind is Write || kind is Append || kind is Clobber
                    || kind is ReadAndWrite,
                has_expansion: has_expansion(word@),
            },
        ),
        Redirection::OutputAndError(word) => Some(
            RedirectModel {
                target: word@,
                is_write: true,
                has_expansion: has_expansion(word@),
            },
        ),
        _ => None,
    }
}

/// The files that redirections among the items name.
pub open spec fn file_redirects(items: Seq<CommandPart>) -> Seq<RedirectModel>
    decreases items.len(),
{
    if items.len() == 0 {
        Seq::empty()
    } else {
        let before = file_redirects(items.drop_last());
        match items.last() {
            CommandPart::Redirect(r) => match redirect_of(r) {
                Some(m) => before.push(m),
                None => before,
            },
            _ => before,
        }
    }
}

/// The items of an optional prefix or suffix.
pub open spec fn items_of(items: Option<Vec<CommandPart>>) -> Seq<CommandPart> {
    match items {
        Some(v) => v@,
        None => Seq::empty(),
    }
}

/// A simple command as it stands in the command line, before extraction.
pub open spec fn written_command(
    p: PlainCommand,
    name: Seq<char>,
    is_pipe_target: bool,
) -> CommandModel {
    CommandModel {
        name,
        args: words_of(items_of(p.suffix)),
        args_complete: !has_expansion(name) && is_closed(items_of(p.suffix)) && is_closed(
            items_of(p.prefix),
        ),
        effective_user: EffectiveModel::Unchanged,
        effective_host: EffectiveModel::Unchanged,
        effective_cwd: EffectiveModel::Unchanged,
        is_pipe_target,
        redirects: file_redirects(items_of(p.prefix)) + file_redirects(items_of(p.suffix)),
        parent: None,
        inner: InnerExtraction::NotExtracted,
        getopt: None,
    }
}

/// What extraction from a wrapper yields: the inner commands, and what becomes
/// of the wrapper.
pub ghost struct Extraction {
    pub commands: Seq<CommandModel>,
    pub found: bool,
}

/// The commands of a program. `reg` are the wrappers that apply to it, `base`
/// those that apply inside command substitutions. `depth` bounds how often
/// extraction may go into a text or wrapper that it has extracted.
pub open spec fn script_commands(
    script: Script,
    reg: Seq<WrapperModel>,
    base: Seq<WrapperModel>,
    depth: nat,
) -> Seq<CommandModel>
    decreases depth, script.lists, script.lists@.len() + 1, 0nat,
{
    lists_commands(script.lists, script.lists@.len(), reg, base, depth)
}

/// The commands of the first `n` lists.
pub open spec fn lists_commands(
    lists: Vec<CommandList>,
    n: nat,
    reg: Seq<WrapperModel>,
    base: Seq<WrapperModel>,
    depth: nat,
) -> Seq<CommandModel>
    decreases depth, lists, n, 0nat,
{
    if n == 0 || n > lists@.len() {
        Seq::empty()
    } else {
        lists_commands(lists, (n - 1) as nat, reg, base, depth) + list_commands(
            lists@[n - 1],
            reg,
            base,
            depth,
        )
    }
}

/// The commands of a list.
pub open spec fn list_commands(
    list: CommandList,
    reg: Seq<WrapperModel>,
    base: Seq<WrapperModel>,
    depth: nat,
) -> Seq<CommandModel>
    decreases depth, list, 0nat, 0nat,
{
    entries_commands(list.items, list.items@.len(), reg, base, depth)
}

/// The commands of the first `n` entries of a list.
pub open spec fn entries_commands(
    entries: Vec<ListEntry>,
    n: nat,
    reg: Seq<WrapperModel>,
    base: Seq<WrapperModel>,
    depth: nat,
) -> Seq<CommandModel>
    decreases depth, entries, n, 0nat,
{
    if n == 0 || n > entries@.len() {
        Seq::empty()
    } else {
        entries_commands(entries, (n - 1) as nat, reg, base, depth) + chain_commands(
            entries@[n - 1].chain,
            reg,
            base,
            depth,
        )
    }
}

/// The commands of a chain.
pub open spec fn chain_commands(
    chain: Chain,
    reg: Seq<WrapperModel>,
    base: Seq<WrapperModel>,
    depth: nat,
) -> Seq<CommandModel>
    decreases depth, chain, 0nat, 0nat,
{
    pipeline_commands(chain.first.seq, chain.first.seq@.len(), reg, base, depth) + links_commands(
        chain.additional,
        chain.additional@.len(),
        reg,
        base,
        depth,
    )
}

/// The commands of the first `n` further pipelines of a chain.
pub open spec fn links_commands(
    links: Vec<ChainLink>,
    n: nat,
    reg: Seq<WrapperModel>,
    base: Seq<WrapperModel>,
    depth: nat,
) -> Seq<CommandModel>
    decreases depth, links, n, 0nat,
{
    if n == 0 || n > links@.len() {
        Seq::empty()
    } else {
        let p = links@[n - 1].pipeline.seq;
        links_commands(links, (n - 1) as nat, reg, base, depth) + pipeline_commands(
            p,
            p@.len(),
            reg,
            base,
            depth,
        )
    }
}

/// The commands of the first `n` segments of a pipeline. All but the first
/// receive piped input.
pub open spec fn pipeline_commands(
    seq: Vec<ShellCommand>,
    n: nat,
    reg: Seq<WrapperModel>,
    base: Seq<WrapperModel>,
    depth: nat,
) -> Seq<CommandModel>
    decreases depth, seq, n, 0nat,
{
    if n == 0 || n > seq@.len() {
        Seq::empty()
    } else {
        pipeline_commands(seq, (n - 1) as nat, reg, base, depth) + (match seq@[n - 1].kind {
            CommandKind::Simple(p) => simple_commands(p, n > 1, reg, base, depth),
            CommandKind::Compound(c) => compound_commands(c, reg, base, depth),
            CommandKind::Function => Seq::empty(),
            CommandKind::ExtendedTest => Seq::empty(),
        })
    }
}

/// The commands of a compound command: of its conditions and bodies, in order.
pub open spec fn compound_commands(
    c: CompoundForm,
    reg: Seq<WrapperModel>,
    base: Seq<WrapperModel>,
    depth: nat,
) -> Seq<CommandModel>
    decreases depth, c, 0nat, 0nat,
{
    match c {
        CompoundForm::Arithmetic => Seq::empty(),
        CompoundForm::ArithmeticFor(list) => list_commands(list, reg, base, depth),
        CompoundForm::BraceGroup(list) => list_commands(list, reg, base, depth),
        CompoundForm::Subshell(list) => list_commands(list, reg, base, depth),
        CompoundForm::For(list) => list_commands(list, reg, base, depth),
        CompoundForm::Case(cases) => cases_commands(cases, cases@.len(), reg, base, depth),
        CompoundForm::If { condition, body, elses } => list_commands(condition, reg, base, depth)
            + list_commands(body, reg, base, depth) + (match elses {
            Some(v) => elses_commands(v, v@.len(), reg, base, depth),
            None => Seq::empty(),
        }),
        CompoundForm::While { condition, body } => list_commands(condition, reg, base, depth)
            + list_commands(body, reg, base, depth),
        CompoundForm::Until { condition, body } => list_commands(condition, reg, base, depth)
            + list_commands(body, reg, base, depth),
    }
}

/// The commands of the first `n` cases.
pub open spec fn cases_commands(
    cases: Vec<Option<CommandList>>,
    n: nat,
    reg: Seq<WrapperModel>,
    base: Seq<WrapperModel>,
    depth: nat,
) -> Seq<CommandModel>
    decreases depth, cases, n, 0nat,
{
    if n == 0 || n > cases@.len() {
        Seq::empty()
    } else {
        cases_commands(cases, (n - 1) as nat, reg, base, depth) + (match cases@[n - 1] {
            Some(list) => list_commands(list, reg, base, depth),
            None => Seq::empty(),
        })
    }
}

/// The commands of the first `n` else parts.
pub open spec fn elses_commands(
    elses: Vec<ElsePart>,
    n: nat,
    reg: Seq<WrapperModel>,
    base: Seq<WrapperModel>,
    depth: nat,
) -> Seq<CommandModel>
    decreases depth, elses, n, 0nat,
{
    if n == 0 || n > elses@.len() {
        Seq::empty()
    } else {
        elses_commands(elses, (n - 1) as nat, reg, base, depth) + (match elses@[n - 1].condition {
            Some(list) => list_commands(list, reg, base, depth),
            None => Seq::empty(),
        }) + list_commands(elses@[n - 1].body, reg, base, depth)
    }
}

/// The commands of a simple command: those that it wraps, itself, and those of
/// the substitutions in its words.
pub open spec fn simple_commands(
    p: PlainCommand,
    is_pipe_target: bool,
    reg: Seq<WrapperModel>,
    base: Seq<WrapperModel>,
    depth: nat,
) -> Seq<CommandModel>
    decreases depth, p, 0nat, 0nat,
{
    match p.word_or_name {
        None => Seq::empty(),
        Some(name) => (if depth == 0 {
            seq![written_command(p, name@, is_pipe_target)]
        } else {
            wrapped_commands(
                written_command(p, name@, is_pipe_target),
                reg,
                base,
                (depth - 1) as nat,
            )
        }) + optional_items_commands(p.suffix, reg, base, depth) + optional_items_commands(
            p.prefix,
            reg,
            base,
            depth,
        ),
    }
}

/// The commands of the substitutions among optional items.
pub open spec fn optional_items_commands(
    items: Option<Vec<CommandPart>>,
    reg: Seq<WrapperModel>,
    base: Seq<WrapperModel>,
    depth: nat,
) -> Seq<CommandModel>
    decreases depth, items, 0nat, 0nat,
{
    match items {
        Some(v) => items_commands(v, v@.len(), reg, base, depth),
        None => Seq::empty(),
    }
}

/// The commands of the substitutions among the first `n` items.
pub open spec fn items_commands(
    items: Vec<CommandPart>,
    n: nat,
    reg: Seq<WrapperModel>,
    base: Seq<WrapperModel>,
    depth: nat,
) -> Seq<CommandModel>
    decreases depth, items, n, 0nat,
{
    if n == 0 || n > items@.len() {
        Seq::empty()
    } else {
        items_commands(items, (n - 1) as nat, reg, base, depth) + (match items@[n - 1] {
            CommandPart::Word(w) => match parsed_word(w@) {
                Some(pieces) => if depth == 0 {
                    Seq::empty()
                } else {
                    pieces_commands(pieces, pieces@.len(), base, (depth - 1) as nat)
                },
                None => Seq::empty(),
            },
            CommandPart::ProcessSubstitution(list) => list_commands(list, reg, base, depth),
            _ => Seq::empty(),
        })
    }
}

/// The commands of the substitutions among the first `n` pieces of a word.
pub open spec fn pieces_commands(
    pieces: Vec<WordPart>,
    n: nat,
    base: Seq<WrapperModel>,
    depth: nat,
) -> Seq<CommandModel>
    decreases depth, pieces, n, 0nat,
{
    if n == 0 || n > pieces@.len() {
        Seq::empty()
    } else {
        pieces_commands(pieces, (n - 1) as nat, base, depth) + (match pieces@[n - 1] {
            WordPart::CommandSubstitution(text) => if depth == 0 {
                Seq::empty()
            } else {
                text_commands(text@, base, base, (depth - 1) as nat)
            },
            WordPart::BackquotedSubstitution(text) => if depth == 0 {
                Seq::empty()
            } else {
                text_commands(text@, base, base, (depth - 1) as nat)
            },
            WordPart::DoubleQuoted(inner) => pieces_commands(inner, inner@.len(), base, depth),
            _ => Seq::empty(),
        })
    }
}

/// The commands of a text, one level deeper; none where it does not parse.
pub open spec fn text_commands(
    text: Seq<char>,
    reg: Seq<WrapperModel>,
    base: Seq<WrapperModel>,
    depth: nat,
) -> Seq<CommandModel>
    decreases depth, None::<()>, 0nat, 0nat,
{
    match script_of(text) {
        Ok(script) => if depth == 0 {
            Seq::empty()
        } else {
            script_commands(script, reg, base, (depth - 1) as nat)
        },
        Err(_) => Seq::empty(),
    }
}

/// A command after those that it wraps.
pub open spec fn wrapped_commands(
    c: CommandModel,
    reg: Seq<WrapperModel>,
    base: Seq<WrapperModel>,
    depth: nat,
) -> Seq<CommandModel>
    decreases depth, None::<()>, 2nat, 0nat,
{
    let i = wrapper_index(c, reg, 0);
    if i < 0 || i >= reg.len() {
        seq![c]
    } else {
        let seen = CommandModel { getopt: wrapper_options(c, reg[i]), ..c };
        let found = extraction(seen, reg[i], reg, base, depth);
        let inner = if !found.found {
            InnerExtraction::NotExtracted
        } else if reg[i].skip_wrapper {
            InnerExtraction::Transparent
        } else {
            InnerExtraction::Evaluated
        };
        found.commands.push(CommandModel { inner, ..seen })
    }
}

/// What extraction from `c`, as wrapper `w`, yields. A list of texts is one
/// inner command, a list of such lists several, and a text is parsed anew.
pub open spec fn extraction(
    c: CommandModel,
    w: WrapperModel,
    reg: Seq<WrapperModel>,
    base: Seq<WrapperModel>,
    depth: nat,
) -> Extraction
    decreases depth, None::<()>, 1nat, 0nat,
{
    let none = Extraction { commands: Seq::empty(), found: false };
    let inherited = inherited_from(c, w);
    match eval(w.inner, wrapper_context(c, w)) {
        Tri::List { elements, .. } => if elements.len() == 0 {
            none
        } else if elements[0] is List {
            blocks_extraction(elements, elements.len(), c, inherited, w.args_complete, reg, base, depth)
        } else if list_texts(elements).len() == 0 {
            none
        } else {
            let inner = inner_command(c, list_texts(elements), inherited, w.args_complete);
            Extraction {
                commands: if depth == 0 {
                    seq![inner]
                } else {
                    wrapped_commands(inner, reg, base, (depth - 1) as nat)
                },
                found: true,
            }
        },
        Tri::Text(text) => if has_expansion(unquoted(text)) {
            none
        } else {
            let commands = text_commands(unquoted(text), reg, base, depth);
            Extraction {
                commands: adopted(commands, c, inherited),
                found: commands.len() > 0,
            }
        },
        _ => none,
    }
}

/// The inner commands that the first `n` blocks are.
pub open spec fn blocks_extraction(
    blocks: Seq<Tri>,
    n: nat,
    c: CommandModel,
    inherited: Inherited,
    args_complete: bool,
    reg: Seq<WrapperModel>,
    base: Seq<WrapperModel>,
    depth: nat,
) -> Extraction
    decreases depth, None::<()>, 0nat, n,
{
    if n == 0 || n > blocks.len() {
        Extraction { commands: Seq::empty(), found: false }
    } else {
        let before = blocks_extraction(
            blocks,
            (n - 1) as nat,
            c,
            inherited,
            args_complete,
            reg,
            base,
            depth,
        );
        match blocks[n - 1] {
            Tri::List { elements, .. } => if list_texts(elements).len() == 0 {
                before
            } else {
                let inner = inner_command(c, list_texts(elements), inherited, args_complete);
                Extraction {
                    commands: before.commands + (if depth == 0 {
                        seq![inner]
                    } else {
                        wrapped_commands(inner, reg, base, (depth - 1) as nat)
                    }),
                    found: true,
                }
            },
            _ => before,
        }
    }
}

/// `Arc::clone`: another handle on the same command.
#[verifier::external_body]
fn share(c: &Arc<CommandInfo>) -> (r: Arc<CommandInfo>)
    ensures
        r == *c,
{
    Arc::clone(c)
}

/// The commands of a list, mathematically.
pub open spec fn models(v: Seq<CommandInfo>) -> Seq<CommandModel> {
    Seq::new(v.len(), |i: int| v[i]@)
}

/// A copy of redirects.
fn clone_redirects(v: &[RedirectInfo]) -> (r: Vec<RedirectInfo>)
    ensures
        redirects_of(r@) == redirects_of(v@),
{
    let mut out: Vec<RedirectInfo> = Vec::new();
    let mut i: usize = 0;
    while i < v.len()
        invariant
            i <= v@.len(),
            out@.len() == i,
            forall|j: int| 0 <= j < i ==> (#[trigger] out@[j])@ == v@[j]@,
        decreases v@.len() - i,
    {
        out.push(
            RedirectInfo {
                target: v[i].target.clone(),
                is_write: v[i].is_write,
                has_expansion: v[i].has_expansion,
            },
        );
        i = i + 1;
    }
    assert(redirects_of(out@) =~= redirects_of(v@));
    out
}

impl Clone for CommandInfo {
    fn clone(&self) -> (r: CommandInfo)
        ensures
            r@ == self@,
    {
        CommandInfo {
            name: self.name.clone(),
            args: clone_texts(self.args.as_slice()),
            args_complete: self.args_complete,
            effective_user: self.effective_user.clone(),
            effective_host: self.effective_host.clone(),
            effective_cwd: self.effective_cwd.clone(),
            is_pipe_target: self.is_pipe_target,
            redirects: clone_redirects(self.redirects.as_slice()),
            parent: match &self.parent {
                Some(p) => Some(share(p)),
                None => None,
            },
            inner: self.inner,
            getopt: match &self.getopt {
                Some(g) => Some(g.clone()),
                None => None,
            },
        }
    }
}

/// Append commands.
fn extend(out: &mut Vec<CommandInfo>, more: Vec<CommandInfo>)
    ensures
        models(final(out)@) == models(old(out)@) + models(more@),
{
    let mut more = more;
    let ghost tail = more@;
    out.append(&mut more);
    assert(models(out@) =~= models(old(out)@) + models(tail));
}

/// The options that `c` was given, as wrapper `w` declares them.
fn read_options(c: &CommandInfo, w: &CompiledWrapper) -> (r: Option<TriVal>)
    ensures
        match r {
            Some(g) => wrapper_options(c@, w@) == Some(g@),
            None => wrapper_options(c@, w@) is None,
        },
{
    match &w.getopt {
        Some(spec) => {
            let args = strings_to_trivals(c.args.as_slice());
            assert(tris(args@) =~= Seq::new(c@.args.len(), |i: int| Tri::Text(c@.args[i])));
            Some(parsed_args_to_trival(&parse_args(args.as_slice(), spec, c.args_complete)))
        },
        None => None,
    }
}

/// The bindings that a wrapper's expressions are evaluated under.
fn build_wrapper_context(c: &CommandInfo, w: &CompiledWrapper) -> (r: TriMap)
    ensures
        r@ == wrapper_context(c@, w@),
{
    let args = strings_to_trivals(c.args.as_slice());
    assert(tris(args@) =~= Seq::new(c@.args.len(), |i: int| Tri::Text(c@.args[i])));
    let mut command = TriMap::new();
    command.insert("name".to_owned(), TriVal::String(c.name.clone()));
    command.insert("args".to_owned(), TriVal::List { elements: args, exhaustive: c.args_complete });
    let getopt = match read_options(c, w) {
        Some(g) => g,
        None => TriVal::Null,
    };
    command.insert("getopt".to_owned(), getopt);
    let mut ctx = TriMap::new();
    ctx.insert("command".to_owned(), TriVal::Object(command));
    ctx
}

/// A captured value.
fn trival_to_effective(v: TriVal) -> (r: Effective)
    ensures
        r@ == effective_of(v@),
{
    match v {
        TriVal::String(s) => Effective::Known(s),
        TriVal::Unknown => Effective::Unknown,
        _ => Effective::Unchanged,
    }
}

/// What a capture expression yields; `inherited` where there is none.
fn capture_value(capture: &Option<CelExpr>, inherited: &Effective, ctx: &TriMap) -> (r: Effective)
    ensures
        r@ == captured_value(*capture, inherited@, ctx@),
{
    match capture {
        Some(e) => trival_to_effective(eval_expr(e, ctx)),
        None => inherited.clone(),
    }
}

/// The user, host and directory that a wrapper's inner commands run with.
struct Context {
    user: Effective,
    host: Effective,
    cwd: Effective,
}

impl Context {
    spec fn model(self) -> Inherited {
        Inherited { user: self.user@, host: self.host@, cwd: self.cwd@ }
    }
}

/// The place of the first wrapper that a command is; the number of wrappers
/// where it is none.
fn find_wrapper(c: &CommandInfo, reg: &WrapperRegistry) -> (r: usize)
    ensures
        r == wrapper_index(c@, reg@, 0),
        r <= reg@.len(),
{
    let mut i: usize = 0;
    while i < reg.wrappers.len()
        invariant
            i <= reg.wrappers@.len(),
            wrapper_index(c@, reg@, 0) == wrapper_index(c@, reg@, i as int),
        decreases reg.wrappers@.len() - i,
    {
        assert(reg@[i as int] == reg.wrappers@[i as int]@);
        let ctx = build_wrapper_context(c, &reg.wrappers[i]);
        if eval_expr(&reg.wrappers[i].when, &ctx).is_truthy() == TriBool::True {
            return i;
        }
        i = i + 1;
    }
    i
}

/// An inner command of `parent`.
fn make_inner(parent: &CommandInfo, words: &[String], context: &Context, args_complete: bool) -> (r:
    CommandInfo)
    requires
        words@.len() > 0,
    ensures
        r@ == inner_command(parent@, texts(words@), context.model(), args_complete),
{
    let rest = vstd::slice::slice_subrange(words, 1, words.len());
    let args = clone_texts(rest);
    assert(texts(args@) =~= texts(words@).subrange(1, words@.len() as int));
    let redirects: Vec<RedirectInfo> = Vec::new();
    assert(redirects_of(redirects@) =~= Seq::<RedirectModel>::empty());
    CommandInfo {
        name: words[0].clone(),
        args,
        args_complete,
        effective_user: context.user.clone(),
        effective_host: context.host.clone(),
        effective_cwd: context.cwd.clone(),
        is_pipe_target: false,
        redirects,
        parent: Some(Arc::new(parent.clone())),
        inner: InnerExtraction::NotExtracted,
        getopt: None,
    }
}

/// The file that a redirection names.
fn redirect_info(r: &Redirection) -> (o: Option<RedirectInfo>)
    ensures
        match o {
            Some(i) => redirect_of(*r) == Some(i@),
            None => redirect_of(*r) is None,
        },
{
    match r {
        Redirection::File { kind, target: RedirectTarget::Filename(word) } => {
            let is_write = match kind {
                RedirectKind::Write
                | RedirectKind::Append
                | RedirectKind::Clobber
                | RedirectKind::ReadAndWrite => true,
                _ => false,
            };
            Some(
                RedirectInfo {
                    target: word.clone(),
                    is_write,
                    has_expansion: word_has_expansion(word.as_str()),
                },
            )
        },
        Redirection::OutputAndError(word) => Some(
            RedirectInfo {
                target: word.clone(),
                is_write: true,
                has_expansion: word_has_expansion(word.as_str()),
            },
        ),
        _ => None,
    }
}

/// The files that redirections among the items name.
fn extract_redirects(items: &[CommandPart]) -> (r: Vec<RedirectInfo>)
    ensures
        redirects_of(r@) == file_redirects(items@),
{
    let mut out: Vec<RedirectInfo> = Vec::new();
    let mut i: usize = 0;
    assert(items@.subrange(0, 0) =~= Seq::<CommandPart>::empty());
    assert(redirects_of(out@) =~= Seq::<RedirectModel>::empty());
    while i < items.len()
        invariant
            i <= items@.len(),
            redirects_of(out@) == file_redirects(items@.subrange(0, i as int)),
        decreases items@.len() - i,
    {
        let ghost upto = items@.subrange(0, i + 1);
        let ghost before = redirects_of(out@);
        assert(upto.drop_last() =~= items@.subrange(0, i as int));
        assert(upto.last() == items@[i as int]);
        if let CommandPart::Redirect(r) = &items[i] {
            if let Some(info) = redirect_info(r) {
                let ghost m = info@;
                out.push(info);
                assert(redirects_of(out@) =~= before.push(m));
            }
        }
        i = i + 1;
    }
    assert(items@.subrange(0, i as int) =~= items@);
    out
}

/// The words among the items.
pub fn extract_words(items: &[CommandPart]) -> (r: Vec<String>)
    ensures
        texts(r@) == words_of(items@),
{
    let mut out: Vec<String> = Vec::new();
    let mut i: usize = 0;
    assert(items@.subrange(0, 0) =~= Seq::<CommandPart>::empty());
    assert(texts(out@) =~= Seq::<Seq<char>>::empty());
    while i < items.len()
        invariant
            i <= items@.len(),
            texts(out@) == words_of(items@.subrange(0, i as int)),
        decreases items@.len() - i,
    {
        let ghost upto = items@.subrange(0, i + 1);
        let ghost before = texts(out@);
        assert(upto.drop_last() =~= items@.subrange(0, i as int));
        assert(upto.last() == items@[i as int]);
        if let CommandPart::Word(w) = &items[i] {
            out.push(w.clone());
            assert(texts(out@) =~= before.push(w@));
        }
        i = i + 1;
    }
    assert(items@.subrange(0, i as int) =~= items@);
    out
}

/// Whether no item adds arguments that cannot be known.
fn items_closed(items: &[CommandPart]) -> (r: bool)
    ensures
        r == is_closed(items@),
{
    let mut i: usize = 0;
    while i < items.len()
        invariant
            i <= items@.len(),
            forall|j: int| 0 <= j < i ==> !is_open_ended(#[trigger] items@[j]),
        decreases items@.len() - i,
    {
        let open = match &items[i] {
            CommandPart::Word(w) => word_has_expansion(w.as_str()),
            CommandPart::ProcessSubstitution(_) => true,
            _ => false,
        };
        if open {
            assert(is_open_ended(items@[i as int]));
            return false;
        }
        i = i + 1;
    }
    true
}

/// The items of an optional prefix or suffix.
fn items_slice(items: &Option<Vec<CommandPart>>) -> (r: &[CommandPart])
    ensures
        r@ == items_of(*items),
{
    match items {
        Some(v) => v.as_slice(),
        None => vstd::slice::slice_subrange(&[], 0, 0),
    }
}

/// A simple command as it stands in the command line.
fn written(p: &PlainCommand, name: &String, is_pipe_target: bool) -> (r: CommandInfo)
    ensures
        r@ == written_command(*p, name@, is_pipe_target),
{
    let prefix = items_slice(&p.prefix);
    let suffix = items_slice(&p.suffix);
    let mut redirects = extract_redirects(prefix);
    let mut more = extract_redirects(suffix);
    let ghost a = redirects@;
    let ghost b = more@;
    redirects.append(&mut more);
    assert(redirects_of(redirects@) =~= redirects_of(a) + redirects_of(b));
    let args_complete = !word_has_expansion(name.as_str()) && items_closed(suffix) && items_closed(
        prefix,
    );
    CommandInfo {
        name: name.clone(),
        args: extract_words(suffix),
        args_complete,
        effective_user: Effective::Unchanged,
        effective_host: Effective::Unchanged,
        effective_cwd: Effective::Unchanged,
        is_pipe_target,
        redirects,
        parent: None,
        inner: InnerExtraction::NotExtracted,
        getopt: None,
    }
}

/// The commands of a parsed command line. `reg` are the wrappers that apply to
/// it, `base` those that apply inside command substitutions.
#[verifier::spinoff_prover]
pub fn extract_from_program(
    script: &Script,
    reg: &WrapperRegistry,
    base: &WrapperRegistry,
    depth: u64,
) -> (r: Vec<CommandInfo>)
    ensures
        models(r@) == script_commands(*script, reg@, base@, depth as nat),
    decreases 2 * depth + 1, script.lists, script.lists@.len() + 2, 0nat,
{
    let mut out: Vec<CommandInfo> = Vec::new();
    let lists = &script.lists;
    let mut i: usize = 0;
    assert(models(out@) =~= Seq::<CommandModel>::empty());
    while i < lists.len()
        invariant
            i <= lists@.len(),
            *lists == script.lists,
            models(out@) == lists_commands(*lists, i as nat, reg@, base@, depth as nat),
        decreases lists@.len() - i,
    {
        let more = extract_from_list(&lists[i], reg, base, depth);
        extend(&mut out, more);
        i = i + 1;
    }
    out
}

/// The commands of a list.
fn extract_from_list(
    list: &CommandList,
    reg: &WrapperRegistry,
    base: &WrapperRegistry,
    depth: u64,
) -> (r: Vec<CommandInfo>)
    ensures
        models(r@) == list_commands(*list, reg@, base@, depth as nat),
    decreases 2 * depth + 1, list, 0nat, 0nat,
{
    extract_from_entries(&list.items, reg, base, depth)
}

/// The commands of the entries of a list.
fn extract_from_entries(
    entries: &Vec<ListEntry>,
    reg: &WrapperRegistry,
    base: &WrapperRegistry,
    depth: u64,
) -> (r: Vec<CommandInfo>)
    ensures
        models(r@) == entries_commands(*entries, entries@.len(), reg@, base@, depth as nat),
    decreases 2 * depth + 1, entries, entries@.len() + 1, 0nat,
{
    let mut out: Vec<CommandInfo> = Vec::new();
    let mut i: usize = 0;
    assert(models(out@) =~= Seq::<CommandModel>::empty());
    while i < entries.len()
        invariant
            i <= entries@.len(),
            models(out@) == entries_commands(*entries, i as nat, reg@, base@, depth as nat),
        decreases entries@.len() - i,
    {
        let more = extract_from_chain(&entries[i].chain, reg, base, depth);
        extend(&mut out, more);
        i = i + 1;
    }
    out
}

/// The commands of a chain.
fn extract_from_chain(
    chain: &Chain,
    reg: &WrapperRegistry,
    base: &WrapperRegistry,
    depth: u64,
) -> (r: Vec<CommandInfo>)
    ensures
        models(r@) == chain_commands(*chain, reg@, base@, depth as nat),
    decreases 2 * depth + 1, chain, 0nat, 0nat,
{
    let mut out = extract_from_pipeline(&chain.first.seq, reg, base, depth);
    let more = extract_from_links(&chain.additional, reg, base, depth);
    extend(&mut out, more);
    out
}

/// The commands of the further pipelines of a chain.
fn extract_from_links(
    links: &Vec<ChainLink>,
    reg: &WrapperRegistry,
    base: &WrapperRegistry,
    depth: u64,
) -> (r: Vec<CommandInfo>)
    ensures
        models(r@) == links_commands(*links, links@.len(), reg@, base@, depth as nat),
    decreases 2 * depth + 1, links, links@.len() + 1, 0nat,
{
    let mut out: Vec<CommandInfo> = Vec::new();
    let mut i: usize = 0;
    assert(models(out@) =~= Seq::<CommandModel>::empty());
    while i < links.len()
        invariant
            i <= links@.len(),
            models(out@) == links_commands(*links, i as nat, reg@, base@, depth as nat),
        decreases links@.len() - i,
    {
        let more = extract_from_pipeline(&links[i].pipeline.seq, reg, base, depth);
        extend(&mut out, more);
        i = i + 1;
    }
    out
}

/// The commands of a pipeline.
fn extract_from_pipeline(
    seq: &Vec<ShellCommand>,
    reg: &WrapperRegistry,
    base: &WrapperRegistry,
    depth: u64,
) -> (r: Vec<CommandInfo>)
    ensures
        models(r@) == pipeline_commands(*seq, seq@.len(), reg@, base@, depth as nat),
    decreases 2 * depth + 1, seq, seq@.len() + 1, 0nat,
{
    let mut out: Vec<CommandInfo> = Vec::new();
    let mut i: usize = 0;
    assert(models(out@) =~= Seq::<CommandModel>::empty());
    while i < seq.len()
        invariant
            i <= seq@.len(),
            models(out@) == pipeline_commands(*seq, i as nat, reg@, base@, depth as nat),
        decreases seq@.len() - i,
    {
        match &seq[i].kind {
            CommandKind::Simple(p) => {
                let more = extract_from_simple_command(p, i > 0, reg, base, depth);
                extend(&mut out, more);
            },
            CommandKind::Compound(c) => {
                let more = extract_from_compound_command(c, reg, base, depth);
                extend(&mut out, more);
            },
            _ => {
                assert(models(out@) =~= models(out@) + Seq::<CommandModel>::empty());
            },
        }
        i = i + 1;
    }
    out
}

/// The commands of a compound command.
fn extract_from_compound_command(
    c: &CompoundForm,
    reg: &WrapperRegistry,
    base: &WrapperRegistry,
    depth: u64,
) -> (r: Vec<CommandInfo>)
    ensures
        models(r@) == compound_commands(*c, reg@, base@, depth as nat),
    decreases 2 * depth + 1, c, 0nat, 0nat,
{
    match c {
        CompoundForm::Arithmetic => {
            let none: Vec<CommandInfo> = Vec::new();
            assert(models(none@) =~= Seq::<CommandModel>::empty());
            none
        },
        CompoundForm::ArithmeticFor(list)
        | CompoundForm::BraceGroup(list)
        | CompoundForm::Subshell(list)
        | CompoundForm::For(list) => extract_from_list(list, reg, base, depth),
        CompoundForm::Case(cases) => extract_from_cases(cases, reg, base, depth),
        CompoundForm::If { condition, body, elses } => {
            let mut out = extract_from_list(condition, reg, base, depth);
            let more = extract_from_list(body, reg, base, depth);
            extend(&mut out, more);
            match elses {
                Some(v) => {
                    let rest = extract_from_elses(v, reg, base, depth);
                    extend(&mut out, rest);
                },
                None => {
                    assert(models(out@) =~= models(out@) + Seq::<CommandModel>::empty());
                },
            }
            out
        },
        CompoundForm::While { condition, body } | CompoundForm::Until { condition, body } => {
            let mut out = extract_from_list(condition, reg, base, depth);
            let more = extract_from_list(body, reg, base, depth);
            extend(&mut out, more);
            out
        },
    }
}

/// The commands of the cases.
fn extract_from_cases(
    cases: &Vec<Option<CommandList>>,
    reg: &WrapperRegistry,
    base: &WrapperRegistry,
    depth: u64,
) -> (r: Vec<CommandInfo>)
    ensures
        models(r@) == cases_commands(*cases, cases@.len(), reg@, base@, depth as nat),
    decreases 2 * depth + 1, cases, cases@.len() + 1, 0nat,
{
    let mut out: Vec<CommandInfo> = Vec::new();
    let mut i: usize = 0;
    assert(models(out@) =~= Seq::<CommandModel>::empty());
    while i < cases.len()
        invariant
            i <= cases@.len(),
            models(out@) == cases_commands(*cases, i as nat, reg@, base@, depth as nat),
        decreases cases@.len() - i,
    {
        match &cases[i] {
            Some(list) => {
                let more = extract_from_list(list, reg, base, depth);
                extend(&mut out, more);
            },
            None => {
                assert(models(out@) =~= models(out@) + Seq::<CommandModel>::empty());
            },
        }
        i = i + 1;
    }
    out
}

/// The commands of the else parts.
fn extract_from_elses(
    elses: &Vec<ElsePart>,
    reg: &WrapperRegistry,
    base: &WrapperRegistry,
    depth: u64,
) -> (r: Vec<CommandInfo>)
    ensures
        models(r@) == elses_commands(*elses, elses@.len(), reg@, base@, depth as nat),
    decreases 2 * depth + 1, elses, elses@.len() + 1, 0nat,
{
    let mut out: Vec<CommandInfo> = Vec::new();
    let mut i: usize = 0;
    assert(models(out@) =~= Seq::<CommandModel>::empty());
    while i < elses.len()
        invariant
            i <= elses@.len(),
            models(out@) == elses_commands(*elses, i as nat, reg@, base@, depth as nat),
        decreases elses@.len() - i,
    {
        match &elses[i].condition {
            Some(list) => {
                let more = extract_from_list(list, reg, base, depth);
                extend(&mut out, more);
            },
            None => {
                assert(models(out@) =~= models(out@) + Seq::<CommandModel>::empty());
            },
        }
        let rest = extract_from_list(&elses[i].body, reg, base, depth);
        extend(&mut out, rest);
        i = i + 1;
    }
    out
}

/// The commands of a simple command: those that it wraps, itself, and those of
/// the substitutions in its words.
fn extract_from_simple_command(
    p: &PlainCommand,
    is_pipe_target: bool,
    reg: &WrapperRegistry,
    base: &WrapperRegistry,
    depth: u64,
) -> (r: Vec<CommandInfo>)
    ensures
        models(r@) == simple_commands(*p, is_pipe_target, reg@, base@, depth as nat),
    decreases 2 * depth + 1, p, 0nat, 0nat,
{
    let name = match &p.word_or_name {
        Some(n) => n,
        None => {
            let none: Vec<CommandInfo> = Vec::new();
            assert(models(none@) =~= Seq::<CommandModel>::empty());
            return none;
        },
    };
    let info = written(p, name, is_pipe_target);
    let mut out = push_inner(info, reg, base, depth);
    match &p.suffix {
        Some(v) => {
            let more = extract_from_items(v, reg, base, depth);
            extend(&mut out, more);
        },
        None => {
            assert(models(out@) =~= models(out@) + Seq::<CommandModel>::empty());
        },
    }
    match &p.prefix {
        Some(v) => {
            let more = extract_from_items(v, reg, base, depth);
            extend(&mut out, more);
        },
        None => {
            assert(models(out@) =~= models(out@) + Seq::<CommandModel>::empty());
        },
    }
    out
}

/// The commands of the substitutions among the items.
fn extract_from_items(
    items: &Vec<CommandPart>,
    reg: &WrapperRegistry,
    base: &WrapperRegistry,
    depth: u64,
) -> (r: Vec<CommandInfo>)
    ensures
        models(r@) == items_commands(*items, items@.len(), reg@, base@, depth as nat),
    decreases 2 * depth + 1, items, items@.len() + 1, 0nat,
{
    let mut out: Vec<CommandInfo> = Vec::new();
    let mut i: usize = 0;
    assert(models(out@) =~= Seq::<CommandModel>::empty());
    while i < items.len()
        invariant
            i <= items@.len(),
            models(out@) == items_commands(*items, i as nat, reg@, base@, depth as nat),
        decreases items@.len() - i,
    {
        match &items[i] {
            CommandPart::Word(w) => {
                let more = extract_command_subs_from_word(w.as_str(), base, depth);
                extend(&mut out, more);
            },
            CommandPart::ProcessSubstitution(list) => {
                let more = extract_from_list(list, reg, base, depth);
                extend(&mut out, more);
            },
            _ => {
                assert(models(out@) =~= models(out@) + Seq::<CommandModel>::empty());
            },
        }
        i = i + 1;
    }
    out
}

/// The commands of the substitutions in a word.
fn extract_command_subs_from_word(word: &str, base: &WrapperRegistry, depth: u64) -> (r: Vec<
    CommandInfo,
>)
    ensures
        models(r@) == (match parsed_word(word@) {
            Some(pieces) => if depth == 0 {
                Seq::empty()
            } else {
                pieces_commands(pieces, pieces@.len(), base@, (depth - 1) as nat)
            },
            None => Seq::empty(),
        }),
    decreases 2 * depth, None::<()>, 0nat, 0nat,
{
    let none: Vec<CommandInfo> = Vec::new();
    assert(models(none@) =~= Seq::<CommandModel>::empty());
    match parse_word(word) {
        Some(pieces) => if depth == 0 {
            none
        } else {
            extract_command_subs_from_pieces(&pieces, base, depth - 1)
        },
        None => none,
    }
}

/// The commands of the substitutions among the pieces of a word.
fn extract_command_subs_from_pieces(
    pieces: &Vec<WordPart>,
    base: &WrapperRegistry,
    depth: u64,
) -> (r: Vec<CommandInfo>)
    ensures
        models(r@) == pieces_commands(*pieces, pieces@.len(), base@, depth as nat),
    decreases 2 * depth + 1, pieces, pieces@.len() + 1, 0nat,
{
    let mut out: Vec<CommandInfo> = Vec::new();
    let mut i: usize = 0;
    assert(models(out@) =~= Seq::<CommandModel>::empty());
    while i < pieces.len()
        invariant
            i <= pieces@.len(),
            models(out@) == pieces_commands(*pieces, i as nat, base@, depth as nat),
        decreases pieces@.len() - i,
    {
        let ghost before = models(out@);
        match &pieces[i] {
            WordPart::CommandSubstitution(text) | WordPart::BackquotedSubstitution(text) => {
                if depth > 0 {
                    let more = extract_from_text(text.as_str(), base, base, depth - 1);
                    extend(&mut out, more);
                } else {
                    assert(before =~= before + Seq::<CommandModel>::empty());
                }
            },
            WordPart::DoubleQuoted(inner) => {
                let more = extract_command_subs_from_pieces(inner, base, depth);
                extend(&mut out, more);
            },
            _ => {
                assert(before =~= before + Seq::<CommandModel>::empty());
            },
        }
        i = i + 1;
    }
    out
}

/// The commands of a text, one level deeper; none where it does not parse.
fn extract_from_text(
    text: &str,
    reg: &WrapperRegistry,
    base: &WrapperRegistry,
    depth: u64,
) -> (r: Vec<CommandInfo>)
    ensures
        models(r@) == text_commands(text@, reg@, base@, depth as nat),
    decreases 2 * depth, None::<()>, 0nat, 0nat,
{
    let none: Vec<CommandInfo> = Vec::new();
    assert(models(none@) =~= Seq::<CommandModel>::empty());
    match parse_script(text) {
        Ok(script) => if depth == 0 {
            none
        } else {
            extract_from_program(&script, reg, base, depth - 1)
        },
        Err(_) => none,
    }
}

/// A command after those that it wraps, one level deeper.
fn push_inner(
    c: CommandInfo,
    reg: &WrapperRegistry,
    base: &WrapperRegistry,
    depth: u64,
) -> (r: Vec<CommandInfo>)
    requires
        c@.inner == InnerExtraction::NotExtracted,
    ensures
        models(r@) == if depth == 0 {
            seq![c@]
        } else {
            wrapped_commands(c@, reg@, base@, (depth - 1) as nat)
        },
    decreases 2 * depth, None::<()>, 0nat, 0nat,
{
    let ghost model = c@;
    let mut out: Vec<CommandInfo> = Vec::new();
    if depth == 0 {
        out.push(c);
        assert(models(out@) =~= seq![model]);
        return out;
    }
    let (last, more) = extract_wrapper_children(c, reg, base, depth - 1);
    let ghost before = models(more@);
    let ghost end = last@;
    out = more;
    out.push(last);
    assert(models(out@) =~= before.push(end));
    out
}

/// What becomes of `c`, and its inner commands where it is a wrapper.
fn extract_wrapper_children(
    c: CommandInfo,
    reg: &WrapperRegistry,
    base: &WrapperRegistry,
    depth: u64,
) -> (r: (CommandInfo, Vec<CommandInfo>))
    ensures
        models(r.1@).push(r.0@) == wrapped_commands(c@, reg@, base@, depth as nat),
    decreases 2 * depth + 1, None::<()>, 3nat, 0nat,
{
    let i: usize = find_wrapper(&c, reg);
    if i >= reg.wrappers.len() {
        let none: Vec<CommandInfo> = Vec::new();
        assert(models(none@).push(c@) =~= seq![c@]);
        return (c, none);
    }
    let w = &reg.wrappers[i];
    assert(reg@[i as int] == w@);
    let options = read_options(&c, w);
    let mut seen = c;
    seen.getopt = options;
    let (found, commands) = extract_inner(&seen, w, reg, base, depth);
    seen.inner = if !found {
        InnerExtraction::NotExtracted
    } else if w.skip_wrapper {
        InnerExtraction::Transparent
    } else {
        InnerExtraction::Evaluated
    };
    (seen, commands)
}

/// What extraction from `c`, as wrapper `w`, yields, and whether it found an
/// inner command.
fn extract_inner(
    c: &CommandInfo,
    w: &CompiledWrapper,
    reg: &WrapperRegistry,
    base: &WrapperRegistry,
    depth: u64,
) -> (r: (bool, Vec<CommandInfo>))
    ensures
        (Extraction { commands: models(r.1@), found: r.0 }) == extraction(
            c@,
            w@,
            reg@,
            base@,
            depth as nat,
        ),
    decreases 2 * depth + 1, None::<()>, 2nat, 0nat,
{
    let ctx = build_wrapper_context(c, w);
    let context = Context {
        user: capture_value(&w.capture_user, &c.effective_user, &ctx),
        host: capture_value(&w.capture_host, &c.effective_host, &ctx),
        cwd: if w.changes_cwd {
            Effective::Unknown
        } else {
            c.effective_cwd.clone()
        },
    };
    assert(context.model() == inherited_from(c@, w@));
    let none: Vec<CommandInfo> = Vec::new();
    assert(models(none@) =~= Seq::<CommandModel>::empty());
    let inner = eval_expr(&w.inner, &ctx);
    match &inner {
        TriVal::List { elements, .. } => {
            if elements.len() == 0 {
                return (false, none);
            }
            assert(tris(elements@)[0] == elements@[0]@);
            if let TriVal::List { .. } = &elements[0] {
                return extract_blocks(elements, c, &context, w.args_complete, reg, base, depth);
            }
            let words = strings_of(elements.as_slice());
            if words.len() == 0 {
                return (false, none);
            }
            let first = make_inner(c, words.as_slice(), &context, w.args_complete);
            (true, push_inner(first, reg, base, depth))
        },
        TriVal::String(text) => {
            let plain = unquote(text.as_str());
            if word_has_expansion(plain.as_str()) {
                return (false, none);
            }
            let commands = extract_from_text(plain.as_str(), reg, base, depth);
            let found = commands.len() > 0;
            (found, adopt(commands, c, &context))
        },
        _ => (false, none),
    }
}

/// The inner commands that the blocks are, and whether there is one.
fn extract_blocks(
    blocks: &Vec<TriVal>,
    c: &CommandInfo,
    context: &Context,
    args_complete: bool,
    reg: &WrapperRegistry,
    base: &WrapperRegistry,
    depth: u64,
) -> (r: (bool, Vec<CommandInfo>))
    ensures
        (Extraction { commands: models(r.1@), found: r.0 }) == blocks_extraction(
            tris(blocks@),
            blocks@.len(),
            c@,
            context.model(),
            args_complete,
            reg@,
            base@,
            depth as nat,
        ),
    decreases 2 * depth + 1, None::<()>, 1nat, 0nat,
{
    let ghost all = tris(blocks@);
    let mut out: Vec<CommandInfo> = Vec::new();
    let mut found: bool = false;
    let mut i: usize = 0;
    assert(models(out@) =~= Seq::<CommandModel>::empty());
    while i < blocks.len()
        invariant
            i <= blocks@.len(),
            all == tris(blocks@),
            (Extraction { commands: models(out@), found }) == blocks_extraction(
                all,
                i as nat,
                c@,
                context.model(),
                args_complete,
                reg@,
                base@,
                depth as nat,
            ),
        decreases blocks@.len() - i,
    {
        assert(all[i as int] == blocks@[i as int]@);
        if let TriVal::List { elements, .. } = &blocks[i] {
            let words = strings_of(elements.as_slice());
            if words.len() > 0 {
                let inner = make_inner(c, words.as_slice(), context, args_complete);
                let more = push_inner(inner, reg, base, depth);
                extend(&mut out, more);
                found = true;
            }
        }
        i = i + 1;
    }
    (found, out)
}

/// Commands of a reparsed text, run by `parent`.
fn adopt(commands: Vec<CommandInfo>, parent: &CommandInfo, context: &Context) -> (r: Vec<
    CommandInfo,
>)
    ensures
        models(r@) == adopted(models(commands@), parent@, context.model()),
{
    let shared = Arc::new(parent.clone());
    let mut out: Vec<CommandInfo> = Vec::new();
    let mut i: usize = 0;
    while i < commands.len()
        invariant
            i <= commands@.len(),
            shared@ == parent@,
            out@.len() == i,
            forall|j: int|
                0 <= j < i ==> (#[trigger] out@[j])@ == adopted(
                    models(commands@),
                    parent@,
                    context.model(),
                )[j],
        decreases commands@.len() - i,
    {
        let c = &commands[i];
        let copy = c.clone();
        let adoptee = CommandInfo {
            name: copy.name,
            args: copy.args,
            args_complete: copy.args_complete,
            effective_user: context.user.clone(),
            effective_host: context.host.clone(),
            effective_cwd: context.cwd.clone(),
            is_pipe_target: copy.is_pipe_target,
            redirects: copy.redirects,
            parent: Some(share(&shared)),
            inner: copy.inner,
            getopt: copy.getopt,
        };
        assert(models(commands@)[i as int] == c@);
        out.push(adoptee);
        i = i + 1;
    }
    assert(models(out@) =~= adopted(models(commands@), parent@, context.model()));
    out
}

/// Error returned where a command line does not parse.
#[derive(Debug)]
pub struct ParseError {
    pub message: String,
}

/// The commands of a command line, or the parser's error. `reg` are the
/// wrappers that apply to it, `base` those that apply inside command
/// substitutions.
pub open spec fn commands_of(
    text: Seq<char>,
    reg: Seq<WrapperModel>,
    base: Seq<WrapperModel>,
) -> Result<Seq<CommandModel>, Seq<char>> {
    match script_of(text) {
        Ok(script) => Ok(script_commands(script, reg, base, u64::MAX as nat)),
        Err(message) => Err(message),
    }
}

/// Parse a command line with the built-in wrappers.
pub fn parse_command(command: &str) -> (r: Result<Vec<CommandInfo>, ParseError>)
    ensures
        match r {
            Ok(v) => commands_of(command@, builtin_registry(), builtin_registry()) == Ok::<
                Seq<CommandModel>,
                Seq<char>,
            >(models(v@)),
            Err(e) => commands_of(command@, builtin_registry(), builtin_registry()) == Err::<
                Seq<CommandModel>,
                Seq<char>,
            >(e.message@),
        },
{
    parse_command_with_registry(command, &default_registry())
}

/// Parse a command line with specific wrappers. Inside command substitutions
/// the built-in ones apply.
pub fn parse_command_with_registry(command: &str, registry: &WrapperRegistry) -> (r: Result<
    Vec<CommandInfo>,
    ParseError,
>)
    ensures
        match r {
            Ok(v) => commands_of(command@, registry@, builtin_registry()) == Ok::<
                Seq<CommandModel>,
                Seq<char>,
            >(models(v@)),
            Err(e) => commands_of(command@, registry@, builtin_registry()) == Err::<
                Seq<CommandModel>,
                Seq<char>,
            >(e.message@),
        },
{
    match parse_script(command) {
        Ok(script) => {
            let base = default_registry();
            Ok(extract_from_program(&script, registry, &base, u64::MAX))
        },
        Err(message) => Err(ParseError { message }),
    }
}

} // verus!
