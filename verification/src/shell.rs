//! Shell syntax: the tree that a command line parses to, and the pieces that a
//! word is made of.
//!
//! Parsing itself is done by the `brush-parser` crate. The types here hold what
//! the library reads of its trees.

use crate::text::{chars_of, is_digit, parse_i32, parsed_i32};
use brush_parser::{ast, word};
use vstd::prelude::*;

verus! {

/// A parsed command line.
#[derive(Debug)]
pub struct Script {
    pub lists: Vec<CommandList>,
}

/// A sequence of chains, such as `a && b; c`.
#[derive(Debug)]
pub struct CommandList {
    pub items: Vec<ListEntry>,
}

/// A chain and what separates it from the next one.
#[derive(Debug)]
pub struct ListEntry {
    pub chain: Chain,
    /// Whether the separator is `&` rather than `;`.
    pub background: bool,
}

/// Pipelines joined by `&&` and `||`.
#[derive(Debug)]
pub struct Chain {
    pub first: PipeSequence,
    pub additional: Vec<ChainLink>,
}

/// One more pipeline of a chain.
#[derive(Debug)]
pub struct ChainLink {
    /// Whether the operator before it is `&&` rather than `||`.
    pub is_and: bool,
    pub pipeline: PipeSequence,
}

/// Commands joined by `|`.
#[derive(Debug)]
pub struct PipeSequence {
    /// The pipeline as shell text.
    pub text: String,
    pub seq: Vec<ShellCommand>,
}

/// One command of a pipeline.
#[derive(Debug)]
pub struct ShellCommand {
    /// The command as shell text.
    pub text: String,
    pub kind: CommandKind,
}

/// What kind of command it is.
#[derive(Debug)]
pub enum CommandKind {
    Simple(PlainCommand),
    Compound(CompoundForm),
    Function,
    ExtendedTest,
}

/// A command made of words and redirections.
#[derive(Debug)]
pub struct PlainCommand {
    pub prefix: Option<Vec<CommandPart>>,
    pub word_or_name: Option<String>,
    pub suffix: Option<Vec<CommandPart>>,
}

/// What stands before or after a simple command's name.
#[derive(Debug)]
pub enum CommandPart {
    Redirect(Redirection),
    Word(String),
    Assignment,
    ProcessSubstitution(CommandList),
}

/// A redirection.
#[derive(Debug)]
pub enum Redirection {
    File { kind: RedirectKind, target: RedirectTarget },
    HereDocument,
    HereString,
    OutputAndError(String),
}

/// The operator of a file redirection.
#[derive(Debug, Clone, Copy, PartialEq, Eq, Structural)]
pub enum RedirectKind {
    Read,
    Write,
    Append,
    ReadAndWrite,
    Clobber,
    DuplicateInput,
    DuplicateOutput,
}

/// What a file redirection points at.
#[derive(Debug)]
pub enum RedirectTarget {
    Filename(String),
    Descriptor,
    ProcessSubstitution,
    Duplicate,
}

/// A compound command.
#[derive(Debug)]
pub enum CompoundForm {
    Arithmetic,
    ArithmeticFor(CommandList),
    BraceGroup(CommandList),
    Subshell(CommandList),
    For(CommandList),
    Case(Vec<Option<CommandList>>),
    If { condition: CommandList, body: CommandList, elses: Option<Vec<ElsePart>> },
    While { condition: CommandList, body: CommandList },
    Until { condition: CommandList, body: CommandList },
}

/// An `elif` (with a condition) or `else` part.
#[derive(Debug)]
pub struct ElsePart {
    pub condition: Option<CommandList>,
    pub body: CommandList,
}

/// A piece of a word.
#[derive(Debug)]
pub enum WordPart {
    Text,
    SingleQuoted,
    AnsiCQuoted,
    DoubleQuoted(Vec<WordPart>),
    GettextDoubleQuoted(Vec<WordPart>),
    Tilde,
    Parameter,
    CommandSubstitution(String),
    BackquotedSubstitution(String),
    Escape,
    Arithmetic,
}

/// `brush_parser::ast::CompoundList`.
#[verifier::external_type_specification]
#[verifier::external_body]
pub struct ExCompoundList(ast::CompoundList);

/// `brush_parser::ast::CompoundListItem`.
#[verifier::external_type_specification]
#[verifier::external_body]
pub struct ExCompoundListItem(ast::CompoundListItem);

/// `brush_parser::ast::AndOr`.
#[verifier::external_type_specification]
#[verifier::external_body]
pub struct ExAndOr(ast::AndOr);

/// `brush_parser::ast::Pipeline`.
#[verifier::external_type_specification]
#[verifier::external_body]
pub struct ExPipeline(ast::Pipeline);

/// `brush_parser::ast::Command`.
#[verifier::external_type_specification]
#[verifier::external_body]
pub struct ExCommand(ast::Command);

/// `brush_parser::ast::SimpleCommand`.
#[verifier::external_type_specification]
#[verifier::external_body]
pub struct ExSimpleCommand(ast::SimpleCommand);

/// `brush_parser::ast::CompoundCommand`.
#[verifier::external_type_specification]
#[verifier::external_body]
pub struct ExCompoundCommand(ast::CompoundCommand);

/// `brush_parser::ast::IfClauseCommand`.
#[verifier::external_type_specification]
#[verifier::external_body]
pub struct ExIfClauseCommand(ast::IfClauseCommand);

/// `brush_parser::ast::CaseClauseCommand`.
#[verifier::external_type_specification]
#[verifier::external_body]
pub struct ExCaseClauseCommand(ast::CaseClauseCommand);

/// `brush_parser::ast::WhileOrUntilClauseCommand`.
#[verifier::external_type_specification]
#[verifier::external_body]
pub struct ExWhileOrUntilClauseCommand(ast::WhileOrUntilClauseCommand);

/// `brush_parser::ast::CommandPrefixOrSuffixItem`.
#[verifier::external_type_specification]
#[verifier::external_body]
pub struct ExCommandPrefixOrSuffixItem(ast::CommandPrefixOrSuffixItem);

/// `brush_parser::ast::IoRedirect`.
#[verifier::external_type_specification]
#[verifier::external_body]
pub struct ExIoRedirect(ast::IoRedirect);

/// `brush_parser::ast::IoFileRedirectKind`.
#[verifier::external_type_specification]
#[verifier::external_body]
pub struct ExIoFileRedirectKind(ast::IoFileRedirectKind);

/// `brush_parser::ast::IoFileRedirectTarget`.
#[verifier::external_type_specification]
#[verifier::external_body]
pub struct ExIoFileRedirectTarget(ast::IoFileRedirectTarget);

/// `brush_parser::word::WordPieceWithSource`.
#[verifier::external_type_specification]
#[verifier::external_body]
pub struct ExWordPieceWithSource(word::WordPieceWithSource);

/// `brush_parser::Token`.
#[verifier::external_type_specification]
#[verifier::external_body]
pub struct ExToken(brush_parser::Token);

/// `brush_parser::SourcePosition`.
#[verifier::external_type_specification]
#[verifier::external_body]
pub struct ExSourcePosition(brush_parser::SourcePosition);

/// An `ast::IoFileRedirectKind` in this library's type, variant by variant.
#[verifier::external_body]
fn convert_kind(kind: ast::IoFileRedirectKind) -> RedirectKind {
    match kind {
        ast::IoFileRedirectKind::Read => RedirectKind::Read,
        ast::IoFileRedirectKind::Write => RedirectKind::Write,
        ast::IoFileRedirectKind::Append => RedirectKind::Append,
        ast::IoFileRedirectKind::ReadAndWrite => RedirectKind::ReadAndWrite,
        ast::IoFileRedirectKind::Clobber => RedirectKind::Clobber,
        ast::IoFileRedirectKind::DuplicateInput => RedirectKind::DuplicateInput,
        ast::IoFileRedirectKind::DuplicateOutput => RedirectKind::DuplicateOutput,
    }
}

/// An `ast::IoFileRedirectTarget` in this library's type, variant by variant.
#[verifier::external_body]
fn convert_target(target: ast::IoFileRedirectTarget) -> RedirectTarget {
    match target {
        ast::IoFileRedirectTarget::Filename(w) => RedirectTarget::Filename(w.value),
        ast::IoFileRedirectTarget::Fd(_) => RedirectTarget::Descriptor,
        ast::IoFileRedirectTarget::ProcessSubstitution(_, _) => RedirectTarget::ProcessSubstitution,
        ast::IoFileRedirectTarget::Duplicate(_) => RedirectTarget::Duplicate,
    }
}

/// An `ast::IoRedirect` in this library's type, variant by variant. A
/// descriptor number and a here-document's text are not kept.
#[verifier::external_body]
fn convert_redirect(redirect: ast::IoRedirect) -> Redirection {
    match redirect {
        ast::IoRedirect::File(_, kind, target) => {
            Redirection::File { kind: convert_kind(kind), target: convert_target(target) }
        },
        ast::IoRedirect::HereDocument(_, _) => Redirection::HereDocument,
        ast::IoRedirect::HereString(_, _) => Redirection::HereString,
        ast::IoRedirect::OutputAndError(w, _) => Redirection::OutputAndError(w.value),
    }
}

/// An `ast::CommandPrefixOrSuffixItem` in this library's type, variant by
/// variant.
#[verifier::external_body]
fn convert_item(item: ast::CommandPrefixOrSuffixItem) -> CommandPart {
    match item {
        ast::CommandPrefixOrSuffixItem::IoRedirect(r) => CommandPart::Redirect(convert_redirect(r)),
        ast::CommandPrefixOrSuffixItem::Word(w) => CommandPart::Word(w.value),
        ast::CommandPrefixOrSuffixItem::AssignmentWord(_, _) => CommandPart::Assignment,
        ast::CommandPrefixOrSuffixItem::ProcessSubstitution(_, s) => {
            CommandPart::ProcessSubstitution(convert_list(s.list))
        },
    }
}

/// An `ast::IfClauseCommand` in this library's type, field by field.
#[verifier::external_body]
fn convert_if(clause: ast::IfClauseCommand) -> CompoundForm {
    let ast::IfClauseCommand { condition, then: body, elses, .. } = clause;
    let elses = elses.map(
        |v| v.into_iter().map(
            |e| ElsePart { condition: e.condition.map(convert_list), body: convert_list(e.body) },
        ).collect(),
    );
    CompoundForm::If {
        condition: convert_list(condition),
        body: convert_list(body),
        elses,
    }
}

/// An `ast::CompoundCommand` in this library's type, variant by variant.
#[verifier::external_body]
fn convert_compound(compound: ast::CompoundCommand) -> CompoundForm {
    match compound {
        ast::CompoundCommand::Arithmetic(_) => CompoundForm::Arithmetic,
        ast::CompoundCommand::ArithmeticForClause(c) => CompoundForm::ArithmeticFor(convert_list(c.body.list)),
        ast::CompoundCommand::BraceGroup(g) => CompoundForm::BraceGroup(convert_list(g.list)),
        ast::CompoundCommand::Subshell(s) => CompoundForm::Subshell(convert_list(s.list)),
        ast::CompoundCommand::ForClause(c) => CompoundForm::For(convert_list(c.body.list)),
        ast::CompoundCommand::CaseClause(c) => convert_case(c),
        ast::CompoundCommand::IfClause(c) => convert_if(c),
        ast::CompoundCommand::WhileClause(c) => convert_while(c),
        ast::CompoundCommand::UntilClause(c) => convert_until(c),
    }
}

/// An `ast::CaseClauseCommand` in this library's type: the commands of each
/// item, in order.
#[verifier::external_body]
fn convert_case(clause: ast::CaseClauseCommand) -> CompoundForm {
    CompoundForm::Case(clause.cases.into_iter().map(|i| i.cmd.map(convert_list)).collect())
}

/// A `while` clause in this library's type, field by field.
#[verifier::external_body]
fn convert_while(clause: ast::WhileOrUntilClauseCommand) -> CompoundForm {
    CompoundForm::While { condition: convert_list(clause.0), body: convert_list(clause.1.list) }
}

/// An `until` clause in this library's type, field by field.
#[verifier::external_body]
fn convert_until(clause: ast::WhileOrUntilClauseCommand) -> CompoundForm {
    CompoundForm::Until { condition: convert_list(clause.0), body: convert_list(clause.1.list) }
}

/// An `ast::SimpleCommand` in this library's type, field by field.
#[verifier::external_body]
fn convert_simple(simple: ast::SimpleCommand) -> PlainCommand {
    PlainCommand {
        prefix: simple.prefix.map(|p| p.0.into_iter().map(convert_item).collect()),
        word_or_name: simple.word_or_name.map(|w| w.value),
        suffix: simple.suffix.map(|s| s.0.into_iter().map(convert_item).collect()),
    }
}

/// An `ast::Command` in this library's type, variant by variant, with the text
/// that its `Display` gives.
#[verifier::external_body]
fn convert_command(command: ast::Command) -> ShellCommand {
    let text = command.to_string();
    let kind = match command {
        ast::Command::Simple(s) => CommandKind::Simple(convert_simple(s)),
        ast::Command::Compound(c, _) => CommandKind::Compound(convert_compound(c)),
        ast::Command::Function(_) => CommandKind::Function,
        ast::Command::ExtendedTest(_) => CommandKind::ExtendedTest,
    };
    ShellCommand { text, kind }
}

/// An `ast::Pipeline` in this library's type, with the text that its `Display`
/// gives.
#[verifier::external_body]
fn convert_pipeline(pipeline: ast::Pipeline) -> PipeSequence {
    PipeSequence {
        text: pipeline.to_string(),
        seq: pipeline.seq.into_iter().map(convert_command).collect(),
    }
}

/// An `ast::AndOr` in this library's type, variant by variant.
#[verifier::external_body]
fn convert_link(link: ast::AndOr) -> ChainLink {
    match link {
        ast::AndOr::And(p) => ChainLink { is_and: true, pipeline: convert_pipeline(p) },
        ast::AndOr::Or(p) => ChainLink { is_and: false, pipeline: convert_pipeline(p) },
    }
}

/// An `ast::CompoundListItem` in this library's type, field by field.
#[verifier::external_body]
fn convert_entry(item: ast::CompoundListItem) -> ListEntry {
    let chain = Chain {
        first: convert_pipeline(item.0.first),
        additional: item.0.additional.into_iter().map(convert_link).collect(),
    };
    let background = match item.1 {
        ast::SeparatorOperator::Async => true,
        ast::SeparatorOperator::Sequence => false,
    };
    ListEntry { chain, background }
}

/// An `ast::CompoundList` in this library's type, item by item.
#[verifier::external_body]
fn convert_list(list: ast::CompoundList) -> CommandList {
    CommandList { items: list.0.into_iter().map(convert_entry).collect() }
}

/// A place in a text: the number of characters before it, its line and its
/// column.
#[derive(Debug, Clone, Copy, PartialEq, Eq, Structural)]
pub struct Place {
    pub index: usize,
    pub line: usize,
    pub column: usize,
}

/// A token of a command line, with the places in the text where it starts and
/// where it ends.
#[derive(Debug)]
pub struct ShellToken {
    pub text: String,
    /// Whether it is an operator, such as `>` or `&&`, rather than a word.
    pub is_operator: bool,
    pub start: Place,
    pub end: Place,
}

/// A token, mathematically.
pub ghost struct TokenModel {
    pub text: Seq<char>,
    pub is_operator: bool,
    pub start: Place,
    pub end: Place,
}

impl View for ShellToken {
    type V = TokenModel;

    open spec fn view(&self) -> TokenModel {
        TokenModel {
            text: self.text@,
            is_operator: self.is_operator,
            start: self.start,
            end: self.end,
        }
    }
}

/// Tokens, mathematically.
pub open spec fn token_models(tokens: Seq<ShellToken>) -> Seq<TokenModel> {
    Seq::new(tokens.len(), |i: int| tokens[i]@)
}

/// A `brush_parser::SourcePosition` in this library's type.
#[verifier::external_body]
fn convert_place(p: &brush_parser::SourcePosition) -> Place {
    Place { index: p.index, line: p.line, column: p.column }
}

/// A `brush_parser::Token` in this library's type, variant by variant.
#[verifier::external_body]
fn convert_token(t: brush_parser::Token) -> ShellToken {
    match t {
        brush_parser::Token::Operator(text, at) => {
            ShellToken { text, is_operator: true, start: convert_place(&at.start), end: convert_place(&at.end) }
        },
        brush_parser::Token::Word(text, at) => {
            ShellToken { text, is_operator: false, start: convert_place(&at.start), end: convert_place(&at.end) }
        },
    }
}

/// What `brush_parser::uncached_tokenize_str` makes of a text: its tokens, or
/// `None` where it fails.
pub uninterp spec fn shell_tokens(text: Seq<char>) -> Option<Seq<TokenModel>>;

/// `brush_parser::uncached_tokenize_str` on `text`, with the options that the
/// parser's default options give its tokenizer: the tokens, converted one by
/// one, or `None` where it fails. The result depends on `text` alone.
#[verifier::external_body]
fn tokenize(text: &str) -> (r: Option<Vec<ShellToken>>)
    ensures
        match r {
            Some(tokens) => shell_tokens(text@) == Some(token_models(tokens@)),
            None => shell_tokens(text@) is None,
        },
{
    let options = brush_parser::ParserOptions::default().tokenizer_options();
    match brush_parser::uncached_tokenize_str(text, &options) {
        Ok(tokens) => Some(tokens.into_iter().map(convert_token).collect()),
        Err(_) => None,
    }
}

/// Whether `s` is made of digits and yet is no number that a file descriptor
/// can have.
pub open spec fn is_bad_descriptor(s: Seq<char>) -> bool {
    (forall|i: int| 0 <= i < s.len() ==> is_digit(#[trigger] s[i])) && parsed_i32(s) is None
}

/// Whether `s` starts as a redirection operator does.
pub open spec fn starts_redirection(s: Seq<char>) -> bool {
    s.len() > 0 && (s[0] == '<' || s[0] == '>')
}

/// Whether token `i` is a word of digits, directly before a redirection
/// operator, that no file descriptor can have.
pub open spec fn bad_descriptor_at(tokens: Seq<TokenModel>, i: int) -> bool {
    &&& 0 <= i
    &&& i + 1 < tokens.len()
    &&& !tokens[i].is_operator
    &&& is_bad_descriptor(tokens[i].text)
    &&& tokens[i + 1].is_operator
    &&& starts_redirection(tokens[i + 1].text)
    &&& tokens[i].end.index == tokens[i + 1].start.index
}

/// Whether `tokens` hold a word of digits, directly before a redirection
/// operator, that does not fit an `i32`.
pub open spec fn has_bad_descriptor(tokens: Seq<TokenModel>) -> bool {
    exists|i: int| #[trigger] bad_descriptor_at(tokens, i)
}

/// A place next to another on the same line.
pub open spec fn beside(p: Place) -> Place {
    Place {
        index: if p.index > 0 {
            (p.index - 1) as usize
        } else {
            1
        },
        ..p
    }
}

/// `tokens` with each word of digits that no file descriptor can have set apart
/// from the redirection behind it: it is then a word like any other, as `bash`
/// takes it.
pub open spec fn detached(tokens: Seq<TokenModel>) -> Seq<TokenModel> {
    Seq::new(
        tokens.len(),
        |i: int|
            if bad_descriptor_at(tokens, i) {
                TokenModel { end: beside(tokens[i].end), ..tokens[i] }
            } else {
                tokens[i]
            },
    )
}

/// Whether a text has tokens with a word of digits, directly before a
/// redirection operator, that does not fit an `i32`.
pub open spec fn descriptor_out_of_range(text: Seq<char>) -> bool {
    match shell_tokens(text) {
        Some(tokens) => has_bad_descriptor(tokens),
        None => false,
    }
}

/// A `Place` as a `brush_parser::SourcePosition`.
#[verifier::external_body]
fn to_position(p: Place) -> brush_parser::SourcePosition {
    brush_parser::SourcePosition { index: p.index, line: p.line, column: p.column }
}

/// A token as a `brush_parser::Token`, variant by variant.
#[verifier::external_body]
fn to_token(t: &ShellToken) -> brush_parser::Token {
    let start = std::sync::Arc::new(to_position(t.start));
    let end = std::sync::Arc::new(to_position(t.end));
    let at = brush_parser::TokenLocation { start, end };
    match t.is_operator {
        true => brush_parser::Token::Operator(t.text.clone(), at),
        false => brush_parser::Token::Word(t.text.clone(), at),
    }
}

/// What `brush_parser::parse_tokens` makes of tokens: the tree, or the text of
/// its error.
pub uninterp spec fn parsed_tokens(tokens: Seq<TokenModel>) -> Result<Script, Seq<char>>;

/// `brush_parser::parse_tokens` on `tokens` with default options, the second of
/// the two steps of `brush_parser::Parser::parse_program`: the tree it builds,
/// converted node by node, or the text of its error. The result depends on
/// `tokens` alone. The parser can panic at a word of digits directly before a
/// redirection operator that does not fit an `i32`, so such tokens are left out.
#[verifier::external_body]
fn parse_tokens(tokens: &[ShellToken]) -> (r: Result<Script, String>)
    requires
        !has_bad_descriptor(token_models(tokens@)),
    ensures
        match r {
            Ok(script) => parsed_tokens(token_models(tokens@)) == Ok::<Script, Seq<char>>(script),
            Err(message) => parsed_tokens(token_models(tokens@)) == Err::<Script, Seq<char>>(
                message@,
            ),
        },
{
    let options = brush_parser::ParserOptions::default();
    let source = brush_parser::SourceInfo::default();
    let all: Vec<brush_parser::Token> = tokens.iter().map(to_token).collect();
    match brush_parser::parse_tokens(&all, &options, &source) {
        Ok(p) => Ok(Script { lists: p.complete_commands.into_iter().map(convert_list).collect() }),
        Err(e) => Err(e.to_string()),
    }
}

/// What `brush_parser::Parser::parse_program` makes of a text: the tree, or the
/// text of its error.
pub uninterp spec fn parsed_script(text: Seq<char>) -> Result<Script, Seq<char>>;

/// `brush_parser::Parser::parse_program` on `text` with default options: the
/// tree it builds, converted node by node, or the text of its error. The result
/// depends on `text` alone. The parser first splits `text` into the tokens that
/// `shell_tokens` names, and can panic where one of them is a word of digits
/// directly before a redirection operator that does not fit an `i32`, so such
/// texts are left out.
#[verifier::external_body]
fn parse_program(text: &str) -> (r: Result<Script, String>)
    requires
        !descriptor_out_of_range(text@),
    ensures
        match r {
            Ok(script) => parsed_script(text@) == Ok::<Script, Seq<char>>(script),
            Err(message) => parsed_script(text@) == Err::<Script, Seq<char>>(message@),
        },
{
    let options = brush_parser::ParserOptions::default();
    let source = brush_parser::SourceInfo::default();
    let mut parser = brush_parser::Parser::new(text.as_bytes(), &options, &source);
    match parser.parse_program() {
        Ok(p) => Ok(Script { lists: p.complete_commands.into_iter().map(convert_list).collect() }),
        Err(e) => Err(e.to_string()),
    }
}

/// What `brush_parser::word::parse` makes of a word: its pieces, or `None`
/// where it fails.
pub uninterp spec fn parsed_word(word: Seq<char>) -> Option<Vec<WordPart>>;

/// A `word::WordPieceWithSource` in this library's type, variant by variant.
#[verifier::external_body]
fn convert_piece(p: word::WordPieceWithSource) -> WordPart {
    match p.piece {
        word::WordPiece::Text(_) => WordPart::Text,
        word::WordPiece::SingleQuotedText(_) => WordPart::SingleQuoted,
        word::WordPiece::AnsiCQuotedText(_) => WordPart::AnsiCQuoted,
        word::WordPiece::DoubleQuotedSequence(v) => WordPart::DoubleQuoted(v.into_iter().map(convert_piece).collect()),
        word::WordPiece::GettextDoubleQuotedSequence(v) => convert_gettext(v),
        word::WordPiece::TildePrefix(_) => WordPart::Tilde,
        word::WordPiece::ParameterExpansion(_) => WordPart::Parameter,
        word::WordPiece::CommandSubstitution(s) => WordPart::CommandSubstitution(s),
        word::WordPiece::BackquotedCommandSubstitution(s) => WordPart::BackquotedSubstitution(s),
        word::WordPiece::EscapeSequence(_) => WordPart::Escape,
        word::WordPiece::ArithmeticExpression(_) => WordPart::Arithmetic,
    }
}

/// The pieces of a gettext string in this library's type.
#[verifier::external_body]
fn convert_gettext(v: Vec<word::WordPieceWithSource>) -> WordPart {
    WordPart::GettextDoubleQuoted(v.into_iter().map(convert_piece).collect())
}

/// `brush_parser::word::parse` on `word` with default options: the pieces,
/// converted one by one, or `None` where it fails. The result depends on `word`
/// alone.
#[verifier::external_body]
pub(crate) fn parse_word(word: &str) -> (r: Option<Vec<WordPart>>)
    ensures
        r == parsed_word(word@),
{
    match word::parse(word, &brush_parser::ParserOptions::default()) {
        Ok(pieces) => Some(pieces.into_iter().map(convert_piece).collect()),
        Err(_) => None,
    }
}

/// Whether a piece stands for something that only a shell can work out.
pub open spec fn expands(p: WordPart) -> bool {
    p is Parameter || p is CommandSubstitution || p is BackquotedSubstitution || p is Arithmetic
}

/// Whether a piece expands, itself or one level inside double quotes.
pub open spec fn expands_within(p: WordPart) -> bool {
    expands(p) || (match p {
        WordPart::DoubleQuoted(inner) => exists|j: int|
            0 <= j < inner@.len() && expands(#[trigger] inner@[j]),
        _ => false,
    })
}

/// Whether any of `pieces` expands, itself or one level inside double quotes.
pub open spec fn any_expands(pieces: Seq<WordPart>) -> bool {
    exists|i: int| 0 <= i < pieces.len() && expands_within(#[trigger] pieces[i])
}

/// Whether a word's value depends on an expansion. A word that does not parse
/// counts as one that does.
pub open spec fn has_expansion(word: Seq<char>) -> bool {
    match parsed_word(word) {
        Some(pieces) => any_expands(pieces@),
        None => true,
    }
}

/// Whether a piece stands for something that only a shell can work out.
fn is_expansion(p: &WordPart) -> (r: bool)
    ensures
        r == expands(*p),
{
    match p {
        WordPart::Parameter
        | WordPart::CommandSubstitution(_)
        | WordPart::BackquotedSubstitution(_)
        | WordPart::Arithmetic => true,
        _ => false,
    }
}

/// Whether a piece expands, itself or one level inside double quotes.
fn piece_expands(p: &WordPart) -> (r: bool)
    ensures
        r == expands_within(*p),
{
    if let WordPart::DoubleQuoted(inner) = p {
        let mut j: usize = 0;
        while j < inner.len()
            invariant
                *p == WordPart::DoubleQuoted(*inner),
                j <= inner@.len(),
                forall|k: int| 0 <= k < j ==> !expands(#[trigger] inner@[k]),
            decreases inner@.len() - j,
        {
            if is_expansion(&inner[j]) {
                assert(expands(p->DoubleQuoted_0@[j as int]));
                return true;
            }
            j = j + 1;
        }
        return false;
    }
    is_expansion(p)
}

/// Whether any of `pieces` expands, itself or one level inside double quotes.
pub fn pieces_expand(pieces: &[WordPart]) -> (r: bool)
    ensures
        r == any_expands(pieces@),
{
    let mut i: usize = 0;
    while i < pieces.len()
        invariant
            i <= pieces@.len(),
            forall|k: int| 0 <= k < i ==> !expands_within(#[trigger] pieces@[k]),
        decreases pieces@.len() - i,
    {
        if piece_expands(&pieces[i]) {
            return true;
        }
        i = i + 1;
    }
    false
}

/// Whether a word holds shell expansions (`$VAR`, `$(cmd)` and so on).
pub fn word_has_expansion(word: &str) -> (r: bool)
    ensures
        r == has_expansion(word@),
{
    match parse_word(word) {
        Some(pieces) => pieces_expand(pieces.as_slice()),
        None => true,
    }
}

/// What a command line parses to: the parser's tree or error. Digits directly
/// before a redirection operator that no file descriptor can have are a word.
pub open spec fn script_of(text: Seq<char>) -> Result<Script, Seq<char>> {
    if descriptor_out_of_range(text) {
        parsed_tokens(detached(shell_tokens(text)->Some_0))
    } else {
        parsed_script(text)
    }
}

/// Parse a command line.
pub fn parse_script(text: &str) -> (r: Result<Script, String>)
    ensures
        match r {
            Ok(script) => script_of(text@) == Ok::<Script, Seq<char>>(script),
            Err(message) => script_of(text@) == Err::<Script, Seq<char>>(message@),
        },
{
    if let Some(tokens) = tokenize(text) {
        if bad_descriptor(tokens.as_slice()) {
            let apart = detach(tokens);
            return parse_tokens(apart.as_slice());
        }
    }
    parse_program(text)
}

/// Whether `s` is made of digits and yet is no number that a file descriptor
/// can have.
fn bad_number(s: &str) -> (r: bool)
    ensures
        r == is_bad_descriptor(s@),
{
    let chars = chars_of(s);
    let mut i: usize = 0;
    while i < chars.len()
        invariant
            chars@ == s@,
            i <= chars@.len(),
            forall|k: int| 0 <= k < i ==> is_digit(#[trigger] s@[k]),
        decreases chars@.len() - i,
    {
        if chars[i] < '0' || '9' < chars[i] {
            assert(!is_digit(s@[i as int]));
            return false;
        }
        i = i + 1;
    }
    parse_i32(s).is_none()
}

/// Whether `s` starts as a redirection operator does.
fn redirection_start(s: &str) -> (r: bool)
    ensures
        r == starts_redirection(s@),
{
    let chars = chars_of(s);
    chars.len() > 0 && (chars[0] == '<' || chars[0] == '>')
}

/// Whether a word of digits that no file descriptor can have stands at `i`,
/// directly before a redirection operator.
fn bad_at(tokens: &[ShellToken], i: usize) -> (r: bool)
    requires
        i < tokens@.len(),
    ensures
        r == bad_descriptor_at(token_models(tokens@), i as int),
{
    if tokens.len() - i <= 1 {
        return false;
    }
    let word = &tokens[i];
    let next = &tokens[i + 1];
    !word.is_operator && next.is_operator && word.end.index == next.start.index
        && redirection_start(next.text.as_str()) && bad_number(word.text.as_str())
}

/// Whether `tokens` hold a word of digits, directly before a redirection
/// operator, that does not fit an `i32`.
pub fn bad_descriptor(tokens: &[ShellToken]) -> (r: bool)
    ensures
        r == has_bad_descriptor(token_models(tokens@)),
{
    let mut i: usize = 0;
    while i < tokens.len()
        invariant
            i <= tokens@.len(),
            forall|k: int|
                0 <= k < i ==> !#[trigger] bad_descriptor_at(token_models(tokens@), k),
        decreases tokens@.len() - i,
    {
        if bad_at(tokens, i) {
            return true;
        }
        i = i + 1;
    }
    false
}

/// `tokens` with each word of digits that no file descriptor can have set apart
/// from the redirection behind it.
pub fn detach(tokens: Vec<ShellToken>) -> (r: Vec<ShellToken>)
    ensures
        token_models(r@) == detached(token_models(tokens@)),
        !has_bad_descriptor(token_models(r@)),
{
    let ghost all = token_models(tokens@);
    let mut out = tokens;
    let mut i: usize = 0;
    while i < out.len()
        invariant
            i <= out@.len() == all.len(),
            forall|k: int| 0 <= k < i ==> (#[trigger] out@[k])@ == detached(all)[k],
            forall|k: int| i <= k < all.len() ==> (#[trigger] out@[k])@ == all[k],
        decreases out@.len() - i,
    {
        proof {
            let now = token_models(out@);
            assert(now[i as int] == all[i as int]);
            if i + 1 < all.len() {
                assert(now[i + 1] == all[i + 1]);
            }
        }
        if bad_at(out.as_slice(), i) {
            let word = &out[i];
            let place = word.end;
            let index: usize = if place.index > 0 {
                place.index - 1
            } else {
                1
            };
            let text = word.text.clone();
            let start = word.start;
            let end = Place { index, line: place.line, column: place.column };
            out.set(i, ShellToken { text, is_operator: false, start, end });
        }
        i = i + 1;
    }
    proof {
        assert(token_models(out@) =~= detached(all));
        detached_is_good(all);
    }
    out
}

/// Once set apart, no word of digits stands before a redirection as its
/// descriptor.
pub proof fn detached_is_good(tokens: Seq<TokenModel>)
    ensures
        !has_bad_descriptor(detached(tokens)),
        !has_bad_descriptor(tokens) ==> detached(tokens) == tokens,
{
    let r = detached(tokens);
    assert forall|i: int| !#[trigger] bad_descriptor_at(r, i) by {
        if 0 <= i && i + 1 < r.len() {
            assert(r[i].text == tokens[i].text && r[i].is_operator == tokens[i].is_operator);
            assert(r[i + 1].text == tokens[i + 1].text && r[i + 1].is_operator
                == tokens[i + 1].is_operator && r[i + 1].start == tokens[i + 1].start);
            if bad_descriptor_at(tokens, i) {
                assert(r[i].end.index != tokens[i].end.index);
            }
        }
    }
    if !has_bad_descriptor(tokens) {
        assert forall|i: int| 0 <= i < r.len() implies r[i] == tokens[i] by {
            assert(!bad_descriptor_at(tokens, i));
        }
        assert(r =~= tokens);
    }
}

/// `s` without its quotes: a backslash keeps the character after it, and other
/// quotes are left out.
pub open spec fn unquoted(s: Seq<char>) -> Seq<char>
    decreases s.len(),
{
    if s.len() == 0 {
        s
    } else if s[0] == '\\' {
        if s.len() == 1 {
            Seq::empty()
        } else {
            seq![s[1]] + unquoted(s.subrange(2, s.len() as int))
        }
    } else if s[0] == '\'' || s[0] == '"' {
        unquoted(s.drop_first())
    } else {
        seq![s[0]] + unquoted(s.drop_first())
    }
}

/// `brush_parser::unquote_str`: drops quotes, and keeps the character after a
/// backslash as it is.
#[verifier::external_body]
pub(crate) fn unquote(s: &str) -> (r: String)
    ensures
        r@ == unquoted(s@),
{
    brush_parser::unquote_str(s)
}

} // verus!
