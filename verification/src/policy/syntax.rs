//! The syntax of policy expressions: which texts are expressions at all.
//!
//! A text is cut into tokens, and a machine with a stack of open brackets says
//! whether they follow one another as the grammar of the Common Expression
//! Language has it. What an expression means is not looked at.

use crate::text::{chars_of, str_eq, substring};
use vstd::prelude::*;

verus! {

/// A token.
#[derive(Debug, Clone, Copy, PartialEq, Eq, Structural)]
pub enum Tok {
    /// White space or a comment.
    Skip,
    Ident,
    /// An identifier in backquotes.
    Quoted,
    /// A number that may have a sign.
    Number,
    /// Any other literal.
    Literal,
    Bang,
    Minus,
    /// An operator between two operands.
    Infix,
    Question,
    Colon,
    Dot,
    Comma,
    LParen,
    RParen,
    LBracket,
    RBracket,
    LBrace,
    RBrace,
}

/// Whether a character starts an identifier.
pub open spec fn ident_start(c: char) -> bool {
    ('a' <= c && c <= 'z') || ('A' <= c && c <= 'Z') || c == '_'
}

/// Whether a character is a decimal digit.
pub open spec fn is_decimal(c: char) -> bool {
    '0' <= c && c <= '9'
}

/// Whether a character is a hexadecimal digit.
pub open spec fn is_hexadecimal(c: char) -> bool {
    is_decimal(c) || ('a' <= c && c <= 'f') || ('A' <= c && c <= 'F')
}

/// Whether the characters from `i` to `j` are there and hexadecimal digits.
pub open spec fn hex_run(s: Seq<char>, i: int, j: int) -> bool {
    0 <= i && j <= s.len() && forall|k: int| i <= k < j ==> is_hexadecimal(#[trigger] s[k])
}

/// The character at a place, or a null character beyond the end.
pub open spec fn at(s: Seq<char>, i: int) -> char {
    if 0 <= i < s.len() {
        s[i]
    } else {
        '\0'
    }
}

/// Whether a character stands three times at a place.
pub open spec fn triple(s: Seq<char>, i: int, q: char) -> bool {
    0 <= i && i + 3 <= s.len() && s[i] == q && s[i + 1] == q && s[i + 2] == q
}

/// Whether a character after a backslash makes an escape of its own.
pub open spec fn is_escaped(c: char) -> bool {
    c == 'a' || c == 'b' || c == 'f' || c == 'n' || c == 'r' || c == 't' || c == 'v' || c == '"' || c
        == '\'' || c == '\\' || c == '?' || c == '`'
}

/// The end of the escape whose backslash stands at `i`; none where it is no
/// escape.
pub open spec fn escape_end(s: Seq<char>, i: int) -> Option<int> {
    let c = at(s, i + 1);
    if is_escaped(c) && i + 1 < s.len() {
        Some(i + 2)
    } else if (c == 'x' || c == 'X') && hex_run(s, i + 2, i + 4) {
        Some(i + 4)
    } else if c == 'u' && hex_run(s, i + 2, i + 6) {
        Some(i + 6)
    } else if c == 'U' && hex_run(s, i + 2, i + 10) {
        Some(i + 10)
    } else if '0' <= c && c <= '3' && i + 4 <= s.len() && '0' <= s[i + 2] && s[i + 2] <= '7' && '0'
        <= s[i + 3] && s[i + 3] <= '7' {
        Some(i + 4)
    } else {
        None
    }
}

/// The end of the text whose content starts at `i`, closed by one quote or three;
/// none where it is not closed. A raw one has no escapes; one closed by one quote
/// has no line ends.
pub open spec fn text_end(s: Seq<char>, i: int, q: char, three: bool, raw: bool) -> Option<int>
    decreases s.len() - i,
{
    if i < 0 || i >= s.len() {
        None
    } else if three && triple(s, i, q) {
        Some(i + 3)
    } else if !three && s[i] == q {
        Some(i + 1)
    } else if !three && (s[i] == '\n' || s[i] == '\r') {
        None
    } else if !raw && s[i] == '\\' {
        match escape_end(s, i) {
            Some(e) => if i < e {
                text_end(s, e, q, three, raw)
            } else {
                None
            },
            None => None,
        }
    } else {
        text_end(s, i + 1, q, three, raw)
    }
}

/// The end of the text whose opening quote stands at `i`.
pub open spec fn quoted_end(s: Seq<char>, i: int, raw: bool) -> Option<int> {
    if triple(s, i, at(s, i)) {
        text_end(s, i + 3, at(s, i), true, raw)
    } else {
        text_end(s, i + 1, at(s, i), false, raw)
    }
}

/// Whether a character opens a text.
pub open spec fn is_quote(c: char) -> bool {
    c == '"' || c == '\''
}

/// Whether a character makes a text raw.
pub open spec fn is_raw(c: char) -> bool {
    c == 'r' || c == 'R'
}

/// The end of the run of digits at `i`.
pub open spec fn decimals_end(s: Seq<char>, i: int) -> int
    decreases s.len() - i,
{
    if 0 <= i < s.len() && is_decimal(s[i]) {
        decimals_end(s, i + 1)
    } else {
        i
    }
}

/// The end of the run of hexadecimal digits at `i`.
pub open spec fn hexadecimals_end(s: Seq<char>, i: int) -> int
    decreases s.len() - i,
{
    if 0 <= i < s.len() && is_hexadecimal(s[i]) {
        hexadecimals_end(s, i + 1)
    } else {
        i
    }
}

/// The end of the identifier that goes on at `i`.
pub open spec fn ident_end(s: Seq<char>, i: int) -> int
    decreases s.len() - i,
{
    if 0 <= i < s.len() && (ident_start(s[i]) || is_decimal(s[i])) {
        ident_end(s, i + 1)
    } else {
        i
    }
}

/// The end of the exponent at `i`; `i` where there is none.
pub open spec fn exponent_end(s: Seq<char>, i: int) -> int {
    if at(s, i) == 'e' || at(s, i) == 'E' {
        let j = if at(s, i + 1) == '+' || at(s, i + 1) == '-' {
            i + 2
        } else {
            i + 1
        };
        if is_decimal(at(s, j)) {
            decimals_end(s, j)
        } else {
            i
        }
    } else {
        i
    }
}

/// The number at `i`: whether it may have a sign, and where it ends.
pub open spec fn number_at(s: Seq<char>, i: int) -> (Tok, int) {
    if at(s, i) == '0' && at(s, i + 1) == 'x' && is_hexadecimal(at(s, i + 2)) {
        let e = hexadecimals_end(s, i + 2);
        if at(s, e) == 'u' || at(s, e) == 'U' {
            (Tok::Literal, e + 1)
        } else {
            (Tok::Number, e)
        }
    } else {
        let d = decimals_end(s, i);
        if at(s, d) == 'u' || at(s, d) == 'U' {
            (Tok::Literal, d + 1)
        } else if at(s, d) == '.' && is_decimal(at(s, d + 1)) {
            (Tok::Number, exponent_end(s, decimals_end(s, d + 1)))
        } else {
            (Tok::Number, exponent_end(s, d))
        }
    }
}

/// The end of a comment that goes on at `i`.
pub open spec fn comment_end(s: Seq<char>, i: int) -> int
    decreases s.len() - i,
{
    if 0 <= i < s.len() && s[i] != '\n' {
        comment_end(s, i + 1)
    } else {
        i
    }
}

/// Whether a character can stand in an identifier in backquotes.
pub open spec fn in_backquotes(c: char) -> bool {
    ident_start(c) || is_decimal(c) || c == '.' || c == '-' || c == '/' || c == ' '
}

/// The end of what can stand in backquotes at `i`.
pub open spec fn backquoted_end(s: Seq<char>, i: int) -> int
    decreases s.len() - i,
{
    if 0 <= i < s.len() && in_backquotes(s[i]) {
        backquoted_end(s, i + 1)
    } else {
        i
    }
}

/// What kind of token an identifier is.
pub open spec fn word_kind(w: Seq<char>) -> Tok {
    if w == "in"@ {
        Tok::Infix
    } else if w == "true"@ || w == "false"@ || w == "null"@ {
        Tok::Literal
    } else {
        Tok::Ident
    }
}

/// The token that starts with a letter at `i`.
pub open spec fn word_at(s: Seq<char>, i: int) -> Option<(Tok, int)> {
    let c = at(s, i);
    let bytes = c == 'b' || c == 'B';
    let j = if bytes {
        i + 1
    } else {
        i
    };
    let raw = is_raw(at(s, j));
    let k = if raw {
        j + 1
    } else {
        j
    };
    if (bytes || raw) && is_quote(at(s, k)) {
        match quoted_end(s, k, raw) {
            Some(e) => Some((Tok::Literal, e)),
            None => None,
        }
    } else {
        let e = ident_end(s, i);
        Some((word_kind(s.subrange(i, e)), e))
    }
}

/// The token made of one character, if there is one.
pub open spec fn sign(c: char) -> Option<Tok> {
    if c == ' ' || c == '\t' || c == '\r' || c == '\n' || c == '\u{c}' {
        Some(Tok::Skip)
    } else if c == '<' || c == '>' || c == '+' || c == '*' || c == '/' || c == '%' {
        Some(Tok::Infix)
    } else if c == '!' {
        Some(Tok::Bang)
    } else if c == '-' {
        Some(Tok::Minus)
    } else if c == '?' {
        Some(Tok::Question)
    } else if c == ':' {
        Some(Tok::Colon)
    } else if c == '.' {
        Some(Tok::Dot)
    } else if c == ',' {
        Some(Tok::Comma)
    } else if c == '(' {
        Some(Tok::LParen)
    } else if c == ')' {
        Some(Tok::RParen)
    } else if c == '[' {
        Some(Tok::LBracket)
    } else if c == ']' {
        Some(Tok::RBracket)
    } else if c == '{' {
        Some(Tok::LBrace)
    } else if c == '}' {
        Some(Tok::RBrace)
    } else {
        None
    }
}

/// Whether two characters make an operator.
pub open spec fn is_pair(c: char, d: char) -> bool {
    (d == '=' && (c == '=' || c == '!' || c == '<' || c == '>')) || (c == '&' && d == '&') || (c
        == '|' && d == '|')
}

/// The token at `i` and where it ends; none where no token starts there.
pub open spec fn token_at(s: Seq<char>, i: int) -> Option<(Tok, int)> {
    let c = at(s, i);
    if ident_start(c) {
        word_at(s, i)
    } else if is_decimal(c) {
        Some(number_at(s, i))
    } else if c == '.' && is_decimal(at(s, i + 1)) {
        Some((Tok::Number, exponent_end(s, decimals_end(s, i + 1))))
    } else if is_quote(c) {
        match quoted_end(s, i, false) {
            Some(e) => Some((Tok::Literal, e)),
            None => None,
        }
    } else if c == '`' {
        let e = backquoted_end(s, i + 1);
        if e > i + 1 && at(s, e) == '`' {
            Some((Tok::Quoted, e + 1))
        } else {
            None
        }
    } else if c == '/' && at(s, i + 1) == '/' {
        Some((Tok::Skip, comment_end(s, i + 2)))
    } else if is_pair(c, at(s, i + 1)) {
        Some((Tok::Infix, i + 2))
    } else {
        match sign(c) {
            Some(t) => Some((t, i + 1)),
            None => None,
        }
    }
}

/// An open bracket, or a condition whose other branch is to come.
#[derive(Debug, Clone, Copy, PartialEq, Eq, Structural)]
pub enum Frame {
    Group,
    Args,
    Index,
    List,
    Key,
    Value,
    Field,
    Choice,
}

/// What may come next.
#[derive(Debug, Clone, Copy, PartialEq, Eq, Structural)]
pub enum Mode {
    /// An operand.
    Operand,
    /// An operand, after `!`.
    Negated,
    /// An operand, after `-`.
    Signed,
    /// A number, after `!-`.
    Number,
    /// The first argument, or the end of the call.
    ArgsStart,
    /// The first element, or the end of the list.
    ListStart,
    /// An element, or the end of the list.
    ListNext,
    /// The end of the list.
    ListEnd,
    /// The first key, or the end of the map.
    KeyStart,
    /// A key, or the end of the map.
    KeyNext,
    /// The end of the braces.
    BraceEnd,
    /// An index.
    IndexStart,
    /// The first field, or the end of the message.
    FieldStart,
    /// A field, or the end of the message.
    FieldNext,
    /// The name of a field.
    FieldName,
    /// The colon after the name of a field.
    FieldColon,
    /// A name, after a dot at the start.
    LeadingDot,
    /// A name, after a dot behind names.
    PathDot,
    /// A name, after another dot.
    SelectDot,
    /// A name, after a dot and a question mark.
    OptionalName,
    /// What follows names with dots between them.
    Path,
    /// What follows a selected name.
    Selected,
    /// What follows another operand.
    Done,
}

/// The machine: what may come next, and the brackets that are open.
pub ghost struct MachineModel {
    pub mode: Mode,
    pub stack: Seq<Frame>,
}

impl MachineModel {
    /// The machine at the start of an expression.
    pub open spec fn start() -> MachineModel {
        MachineModel { mode: Mode::Operand, stack: Seq::empty() }
    }

    /// Whether an expression may end here.
    pub open spec fn accepting(self) -> bool {
        self.stack.len() == 0 && (self.mode == Mode::Path || self.mode == Mode::Selected || self.mode
            == Mode::Done)
    }

    /// The innermost open bracket.
    pub open spec fn top(self) -> Option<Frame> {
        if self.stack.len() > 0 {
            Some(self.stack.last())
        } else {
            None
        }
    }

    /// The machine with another mode.
    pub open spec fn to(self, mode: Mode) -> Option<MachineModel> {
        Some(MachineModel { mode, ..self })
    }

    /// The machine with one more open bracket.
    pub open spec fn open(self, frame: Frame, mode: Mode) -> Option<MachineModel> {
        Some(MachineModel { mode, stack: self.stack.push(frame) })
    }

    /// The machine once the innermost bracket is closed.
    pub open spec fn close(self, mode: Mode) -> Option<MachineModel> {
        if self.stack.len() > 0 {
            Some(MachineModel { mode, stack: self.stack.drop_last() })
        } else {
            None
        }
    }

    /// An operand without a sign.
    pub open spec fn primary(self, t: Tok) -> Option<MachineModel> {
        match t {
            Tok::Ident => self.to(Mode::Path),
            Tok::Number => self.to(Mode::Done),
            Tok::Literal => self.to(Mode::Done),
            Tok::Dot => self.to(Mode::LeadingDot),
            Tok::LParen => self.open(Frame::Group, Mode::Operand),
            Tok::LBracket => self.open(Frame::List, Mode::ListStart),
            Tok::LBrace => self.open(Frame::Key, Mode::KeyStart),
            _ => None,
        }
    }

    /// An operand.
    pub open spec fn operand(self, t: Tok) -> Option<MachineModel> {
        match t {
            Tok::Bang => self.to(Mode::Negated),
            Tok::Minus => self.to(Mode::Signed),
            _ => self.primary(t),
        }
    }

    /// What follows an operand.
    pub open spec fn follow(self, t: Tok) -> Option<MachineModel> {
        match t {
            Tok::Infix => self.to(Mode::Operand),
            Tok::Minus => self.to(Mode::Operand),
            Tok::Dot => self.to(Mode::SelectDot),
            Tok::LBracket => self.open(Frame::Index, Mode::IndexStart),
            Tok::Question => if self.top() == Some(Frame::Choice) {
                None
            } else {
                self.open(Frame::Choice, Mode::Operand)
            },
            Tok::Colon => match self.top() {
                Some(Frame::Choice) => self.close(Mode::Operand),
                Some(Frame::Key) => Some(
                    MachineModel {
                        mode: Mode::Operand,
                        stack: self.stack.drop_last().push(Frame::Value),
                    },
                ),
                _ => None,
            },
            Tok::Comma => match self.top() {
                Some(Frame::Args) => self.to(Mode::Operand),
                Some(Frame::List) => self.to(Mode::ListNext),
                Some(Frame::Value) => Some(
                    MachineModel {
                        mode: Mode::KeyNext,
                        stack: self.stack.drop_last().push(Frame::Key),
                    },
                ),
                Some(Frame::Field) => self.to(Mode::FieldNext),
                _ => None,
            },
            Tok::RParen => match self.top() {
                Some(Frame::Group) => self.close(Mode::Done),
                Some(Frame::Args) => self.close(Mode::Done),
                _ => None,
            },
            Tok::RBracket => match self.top() {
                Some(Frame::Index) => self.close(Mode::Done),
                Some(Frame::List) => self.close(Mode::Done),
                _ => None,
            },
            Tok::RBrace => match self.top() {
                Some(Frame::Value) => self.close(Mode::Done),
                Some(Frame::Field) => self.close(Mode::Done),
                _ => None,
            },
            _ => None,
        }
    }

    /// The name of a field, where one may come.
    pub open spec fn field(self, t: Tok) -> Option<MachineModel> {
        match t {
            Tok::Ident => self.to(Mode::FieldColon),
            Tok::Quoted => self.to(Mode::FieldColon),
            _ => None,
        }
    }

    /// The next token; none where it cannot stand there.
    pub open spec fn step(self, t: Tok) -> Option<MachineModel> {
        match self.mode {
            Mode::Operand => self.operand(t),
            Mode::Negated => match t {
                Tok::Bang => Some(self),
                Tok::Minus => self.to(Mode::Number),
                _ => self.primary(t),
            },
            Mode::Signed => match t {
                Tok::Minus => Some(self),
                _ => self.primary(t),
            },
            Mode::Number => match t {
                Tok::Number => self.to(Mode::Done),
                _ => None,
            },
            Mode::ArgsStart => match t {
                Tok::RParen => self.close(Mode::Done),
                _ => self.operand(t),
            },
            Mode::ListStart => match t {
                Tok::RBracket => self.close(Mode::Done),
                Tok::Comma => self.to(Mode::ListEnd),
                Tok::Question => self.to(Mode::Operand),
                _ => self.operand(t),
            },
            Mode::ListNext => match t {
                Tok::RBracket => self.close(Mode::Done),
                Tok::Question => self.to(Mode::Operand),
                _ => self.operand(t),
            },
            Mode::ListEnd => match t {
                Tok::RBracket => self.close(Mode::Done),
                _ => None,
            },
            Mode::KeyStart => match t {
                Tok::RBrace => self.close(Mode::Done),
                Tok::Comma => self.to(Mode::BraceEnd),
                Tok::Question => self.to(Mode::Operand),
                _ => self.operand(t),
            },
            Mode::KeyNext => match t {
                Tok::RBrace => self.close(Mode::Done),
                Tok::Question => self.to(Mode::Operand),
                _ => self.operand(t),
            },
            Mode::BraceEnd => match t {
                Tok::RBrace => self.close(Mode::Done),
                _ => None,
            },
            Mode::IndexStart => match t {
                Tok::Question => self.to(Mode::Operand),
                _ => self.operand(t),
            },
            Mode::FieldStart => match t {
                Tok::RBrace => self.close(Mode::Done),
                Tok::Comma => self.to(Mode::BraceEnd),
                Tok::Question => self.to(Mode::FieldName),
                _ => self.field(t),
            },
            Mode::FieldNext => match t {
                Tok::RBrace => self.close(Mode::Done),
                Tok::Question => self.to(Mode::FieldName),
                _ => self.field(t),
            },
            Mode::FieldName => self.field(t),
            Mode::FieldColon => match t {
                Tok::Colon => self.to(Mode::Operand),
                _ => None,
            },
            Mode::LeadingDot => match t {
                Tok::Ident => self.to(Mode::Path),
                _ => None,
            },
            Mode::PathDot => match t {
                Tok::Ident => self.to(Mode::Path),
                Tok::Quoted => self.to(Mode::Done),
                Tok::Question => self.to(Mode::OptionalName),
                _ => None,
            },
            Mode::SelectDot => match t {
                Tok::Ident => self.to(Mode::Selected),
                Tok::Quoted => self.to(Mode::Done),
                Tok::Question => self.to(Mode::OptionalName),
                _ => None,
            },
            Mode::OptionalName => match t {
                Tok::Ident => self.to(Mode::Done),
                Tok::Quoted => self.to(Mode::Done),
                _ => None,
            },
            Mode::Path => match t {
                Tok::LParen => self.open(Frame::Args, Mode::ArgsStart),
                Tok::LBrace => self.open(Frame::Field, Mode::FieldStart),
                Tok::Dot => self.to(Mode::PathDot),
                _ => self.follow(t),
            },
            Mode::Selected => match t {
                Tok::LParen => self.open(Frame::Args, Mode::ArgsStart),
                _ => self.follow(t),
            },
            Mode::Done => self.follow(t),
        }
    }
}

/// Whether the tokens from `i` on complete an expression.
pub open spec fn completes(s: Seq<char>, i: int, m: MachineModel) -> bool
    decreases s.len() - i,
{
    if i >= s.len() {
        m.accepting()
    } else {
        match token_at(s, i) {
            Some((t, e)) => if i < e <= s.len() {
                if t == Tok::Skip {
                    completes(s, e, m)
                } else {
                    match m.step(t) {
                        Some(next) => completes(s, e, next),
                        None => false,
                    }
                }
            } else {
                false
            },
            None => false,
        }
    }
}

/// Whether a text is an expression.
pub open spec fn is_expression(s: Seq<char>) -> bool {
    completes(s, 0, MachineModel::start())
}

/// The character at a place, or a null character beyond the end.
fn char_at(s: &[char], i: usize) -> (r: char)
    ensures
        r == at(s@, i as int),
{
    if i < s.len() {
        s[i]
    } else {
        '\0'
    }
}

/// Whether a character starts an identifier.
fn starts_ident(c: char) -> (r: bool)
    ensures
        r == ident_start(c),
{
    ('a' <= c && c <= 'z') || ('A' <= c && c <= 'Z') || c == '_'
}

/// Whether a character is a decimal digit.
fn decimal_digit(c: char) -> (r: bool)
    ensures
        r == is_decimal(c),
{
    '0' <= c && c <= '9'
}

/// Whether a character is a hexadecimal digit.
fn hexadecimal_digit(c: char) -> (r: bool)
    ensures
        r == is_hexadecimal(c),
{
    decimal_digit(c) || ('a' <= c && c <= 'f') || ('A' <= c && c <= 'F')
}

/// Whether `n` hexadecimal digits stand at `i`.
fn hex_digits(s: &[char], i: usize, n: usize) -> (r: bool)
    requires
        i <= s@.len(),
    ensures
        r == hex_run(s@, i as int, i + n),
{
    if s.len() - i < n {
        return false;
    }
    let end: usize = i + n;
    let mut k: usize = i;
    while k < end
        invariant
            i <= k <= end == i + n,
            end <= s@.len(),
            forall|j: int| i <= j < k ==> is_hexadecimal(#[trigger] s@[j]),
        decreases end - k,
    {
        if !hexadecimal_digit(s[k]) {
            return false;
        }
        k = k + 1;
    }
    true
}

/// The end of the escape whose backslash stands at `i`.
fn find_escape_end(s: &[char], i: usize) -> (r: Option<usize>)
    requires
        i < s@.len(),
    ensures
        match r {
            Some(e) => escape_end(s@, i as int) == Some(e as int) && i < e <= s@.len(),
            None => escape_end(s@, i as int) is None,
        },
{
    let n: usize = s.len();
    if i + 1 >= n {
        return None;
    }
    let c = s[i + 1];
    if c == 'a' || c == 'b' || c == 'f' || c == 'n' || c == 'r' || c == 't' || c == 'v' || c == '"'
        || c == '\'' || c == '\\' || c == '?' || c == '`' {
        return Some(i + 2);
    }
    if (c == 'x' || c == 'X') && hex_digits(s, i + 2, 2) {
        return Some(i + 4);
    }
    if c == 'u' && hex_digits(s, i + 2, 4) {
        return Some(i + 6);
    }
    if c == 'U' && hex_digits(s, i + 2, 8) {
        return Some(i + 10);
    }
    if '0' <= c && c <= '3' && n - i >= 4 && '0' <= s[i + 2] && s[i + 2] <= '7' && '0' <= s[i + 3]
        && s[i + 3] <= '7' {
        return Some(i + 4);
    }
    None
}

/// Whether a character stands three times at a place.
fn stands_thrice(s: &[char], i: usize, q: char) -> (r: bool)
    requires
        i <= s@.len(),
    ensures
        r == triple(s@, i as int, q),
{
    s.len() - i >= 3 && s[i] == q && s[i + 1] == q && s[i + 2] == q
}

/// The end of the text whose content starts at `from`.
fn find_text_end(s: &[char], from: usize, q: char, three: bool, raw: bool) -> (r: Option<usize>)
    requires
        from <= s@.len(),
    ensures
        match r {
            Some(e) => text_end(s@, from as int, q, three, raw) == Some(e as int) && from < e
                <= s@.len(),
            None => text_end(s@, from as int, q, three, raw) is None,
        },
{
    let n: usize = s.len();
    let mut i: usize = from;
    while i < n
        invariant
            from <= i <= n == s@.len(),
            text_end(s@, from as int, q, three, raw) == text_end(s@, i as int, q, three, raw),
        decreases n - i,
    {
        if three && stands_thrice(s, i, q) {
            return Some(i + 3);
        }
        if !three && s[i] == q {
            return Some(i + 1);
        }
        if !three && (s[i] == '\n' || s[i] == '\r') {
            return None;
        }
        if !raw && s[i] == '\\' {
            match find_escape_end(s, i) {
                Some(e) => {
                    i = e;
                },
                None => {
                    return None;
                },
            }
        } else {
            i = i + 1;
        }
    }
    None
}

/// The end of the text whose opening quote stands at `i`.
fn find_quoted_end(s: &[char], i: usize, raw: bool) -> (r: Option<usize>)
    requires
        i < s@.len(),
    ensures
        match r {
            Some(e) => quoted_end(s@, i as int, raw) == Some(e as int) && i < e <= s@.len(),
            None => quoted_end(s@, i as int, raw) is None,
        },
{
    let q = s[i];
    if stands_thrice(s, i, q) {
        find_text_end(s, i + 3, q, true, raw)
    } else {
        find_text_end(s, i + 1, q, false, raw)
    }
}

/// The end of the run of digits at `i`.
fn find_decimals_end(s: &[char], i: usize) -> (r: usize)
    requires
        i <= s@.len(),
    ensures
        r == decimals_end(s@, i as int),
        i <= r <= s@.len(),
        i < s@.len() && is_decimal(s@[i as int]) ==> i < r,
{
    let mut k: usize = i;
    while k < s.len() && decimal_digit(s[k])
        invariant
            i <= k <= s@.len(),
            decimals_end(s@, i as int) == decimals_end(s@, k as int),
        decreases s@.len() - k,
    {
        k = k + 1;
    }
    k
}

/// The end of the run of hexadecimal digits at `i`.
fn find_hexadecimals_end(s: &[char], i: usize) -> (r: usize)
    requires
        i <= s@.len(),
    ensures
        r == hexadecimals_end(s@, i as int),
        i <= r <= s@.len(),
{
    let mut k: usize = i;
    while k < s.len() && hexadecimal_digit(s[k])
        invariant
            i <= k <= s@.len(),
            hexadecimals_end(s@, i as int) == hexadecimals_end(s@, k as int),
        decreases s@.len() - k,
    {
        k = k + 1;
    }
    k
}

/// The end of the identifier that goes on at `i`.
fn find_ident_end(s: &[char], i: usize) -> (r: usize)
    requires
        i <= s@.len(),
    ensures
        r == ident_end(s@, i as int),
        i <= r <= s@.len(),
        i < s@.len() && ident_start(s@[i as int]) ==> i < r,
{
    let mut k: usize = i;
    while k < s.len() && (starts_ident(s[k]) || decimal_digit(s[k]))
        invariant
            i <= k <= s@.len(),
            ident_end(s@, i as int) == ident_end(s@, k as int),
        decreases s@.len() - k,
    {
        k = k + 1;
    }
    k
}

/// The end of a comment that goes on at `i`.
fn find_comment_end(s: &[char], i: usize) -> (r: usize)
    requires
        i <= s@.len(),
    ensures
        r == comment_end(s@, i as int),
        i <= r <= s@.len(),
{
    let mut k: usize = i;
    while k < s.len() && s[k] != '\n'
        invariant
            i <= k <= s@.len(),
            comment_end(s@, i as int) == comment_end(s@, k as int),
        decreases s@.len() - k,
    {
        k = k + 1;
    }
    k
}

/// The end of what can stand in backquotes at `i`.
fn find_backquoted_end(s: &[char], i: usize) -> (r: usize)
    requires
        i <= s@.len(),
    ensures
        r == backquoted_end(s@, i as int),
        i <= r <= s@.len(),
{
    let mut k: usize = i;
    while k < s.len() && (starts_ident(s[k]) || decimal_digit(s[k]) || s[k] == '.' || s[k] == '-' || s[k]
        == '/' || s[k] == ' ')
        invariant
            i <= k <= s@.len(),
            backquoted_end(s@, i as int) == backquoted_end(s@, k as int),
        decreases s@.len() - k,
    {
        k = k + 1;
    }
    k
}

/// The end of the exponent at `i`.
fn find_exponent_end(s: &[char], i: usize) -> (r: usize)
    requires
        i <= s@.len(),
    ensures
        r == exponent_end(s@, i as int),
        i <= r <= s@.len(),
{
    let n: usize = s.len();
    if i < n && (s[i] == 'e' || s[i] == 'E') {
        let c = char_at(s, i + 1);
        let j: usize = if c == '+' || c == '-' {
            i + 2
        } else {
            i + 1
        };
        if decimal_digit(char_at(s, j)) {
            return find_decimals_end(s, j);
        }
    }
    i
}

/// The number at `i`.
fn lex_number(s: &[char], i: usize) -> (r: (Tok, usize))
    requires
        i < s@.len(),
        is_decimal(s@[i as int]),
    ensures
        (r.0, r.1 as int) == number_at(s@, i as int),
        i < r.1 <= s@.len(),
{
    let n: usize = s.len();
    if s[i] == '0' && char_at(s, i + 1) == 'x' && hexadecimal_digit(char_at(s, i + 2)) {
        let e: usize = find_hexadecimals_end(s, i + 2);
        let c = char_at(s, e);
        if c == 'u' || c == 'U' {
            (Tok::Literal, e + 1)
        } else {
            (Tok::Number, e)
        }
    } else {
        let d: usize = find_decimals_end(s, i);
        let c = char_at(s, d);
        if c == 'u' || c == 'U' {
            (Tok::Literal, d + 1)
        } else if c == '.' && decimal_digit(char_at(s, d + 1)) {
            let e: usize = find_decimals_end(s, d + 1);
            (Tok::Number, find_exponent_end(s, e))
        } else {
            (Tok::Number, find_exponent_end(s, d))
        }
    }
}

/// The token that starts with a letter at `i`.
fn lex_word(s: &[char], i: usize) -> (r: Option<(Tok, usize)>)
    requires
        i < s@.len(),
        ident_start(s@[i as int]),
    ensures
        match r {
            Some((t, e)) => word_at(s@, i as int) == Some((t, e as int)) && i < e <= s@.len(),
            None => word_at(s@, i as int) is None,
        },
{
    let c = s[i];
    let bytes = c == 'b' || c == 'B';
    let j: usize = if bytes {
        i + 1
    } else {
        i
    };
    let d = char_at(s, j);
    let raw = d == 'r' || d == 'R';
    let k: usize = if raw {
        j + 1
    } else {
        j
    };
    let q = char_at(s, k);
    if (bytes || raw) && (q == '"' || q == '\'') {
        match find_quoted_end(s, k, raw) {
            Some(e) => Some((Tok::Literal, e)),
            None => None,
        }
    } else {
        let e: usize = find_ident_end(s, i);
        let word = substring(s, i, e);
        let w = word.as_str();
        let kind = if str_eq(w, "in") {
            Tok::Infix
        } else if str_eq(w, "true") || str_eq(w, "false") || str_eq(w, "null") {
            Tok::Literal
        } else {
            Tok::Ident
        };
        Some((kind, e))
    }
}

/// The token made of one character, if there is one.
fn lex_sign(c: char) -> (r: Option<Tok>)
    ensures
        r == sign(c),
{
    if c == ' ' || c == '\t' || c == '\r' || c == '\n' || c == '\u{c}' {
        Some(Tok::Skip)
    } else if c == '<' || c == '>' || c == '+' || c == '*' || c == '/' || c == '%' {
        Some(Tok::Infix)
    } else if c == '!' {
        Some(Tok::Bang)
    } else if c == '-' {
        Some(Tok::Minus)
    } else if c == '?' {
        Some(Tok::Question)
    } else if c == ':' {
        Some(Tok::Colon)
    } else if c == '.' {
        Some(Tok::Dot)
    } else if c == ',' {
        Some(Tok::Comma)
    } else if c == '(' {
        Some(Tok::LParen)
    } else if c == ')' {
        Some(Tok::RParen)
    } else if c == '[' {
        Some(Tok::LBracket)
    } else if c == ']' {
        Some(Tok::RBracket)
    } else if c == '{' {
        Some(Tok::LBrace)
    } else if c == '}' {
        Some(Tok::RBrace)
    } else {
        None
    }
}

/// The token at `i` and where it ends.
fn lex(s: &[char], i: usize) -> (r: Option<(Tok, usize)>)
    requires
        i < s@.len(),
    ensures
        match r {
            Some((t, e)) => token_at(s@, i as int) == Some((t, e as int)) && i < e <= s@.len(),
            None => token_at(s@, i as int) is None,
        },
{
    let n: usize = s.len();
    let c = s[i];
    let d = char_at(s, i + 1);
    if starts_ident(c) {
        lex_word(s, i)
    } else if decimal_digit(c) {
        Some(lex_number(s, i))
    } else if c == '.' && decimal_digit(d) {
        let e: usize = find_decimals_end(s, i + 1);
        Some((Tok::Number, find_exponent_end(s, e)))
    } else if c == '"' || c == '\'' {
        match find_quoted_end(s, i, false) {
            Some(e) => Some((Tok::Literal, e)),
            None => None,
        }
    } else if c == '`' {
        let e: usize = find_backquoted_end(s, i + 1);
        if e > i + 1 && char_at(s, e) == '`' {
            Some((Tok::Quoted, e + 1))
        } else {
            None
        }
    } else if c == '/' && d == '/' {
        Some((Tok::Skip, find_comment_end(s, i + 2)))
    } else if (d == '=' && (c == '=' || c == '!' || c == '<' || c == '>')) || (c == '&' && d == '&')
        || (c == '|' && d == '|') {
        Some((Tok::Infix, i + 2))
    } else {
        match lex_sign(c) {
            Some(t) => Some((t, i + 1)),
            None => None,
        }
    }
}

/// The machine, at work.
struct Machine {
    mode: Mode,
    stack: Vec<Frame>,
}

impl View for Machine {
    type V = MachineModel;

    closed spec fn view(&self) -> MachineModel {
        MachineModel { mode: self.mode, stack: self.stack@ }
    }
}

/// Whether the machine went where a step leads; none where no step does.
spec fn stepped(after: MachineModel, ok: bool, expected: Option<MachineModel>) -> bool {
    match expected {
        Some(m) => ok && after == m,
        None => !ok,
    }
}

impl Machine {
    /// The innermost open bracket.
    fn top(&self) -> (r: Option<Frame>)
        ensures
            r == self@.top(),
    {
        let n: usize = self.stack.len();
        if n > 0 {
            Some(self.stack[n - 1])
        } else {
            None
        }
    }

    /// Change the mode.
    fn to(&mut self, mode: Mode) -> (r: bool)
        ensures
            stepped(final(self)@, r, old(self)@.to(mode)),
    {
        self.mode = mode;
        true
    }

    /// Open a bracket.
    fn open(&mut self, frame: Frame, mode: Mode) -> (r: bool)
        ensures
            stepped(final(self)@, r, old(self)@.open(frame, mode)),
    {
        self.stack.push(frame);
        self.mode = mode;
        true
    }

    /// Close the innermost bracket.
    fn close(&mut self, mode: Mode) -> (r: bool)
        ensures
            stepped(final(self)@, r, old(self)@.close(mode)),
    {
        if self.stack.len() == 0 {
            return false;
        }
        self.stack.pop();
        self.mode = mode;
        true
    }

    /// Put another bracket in the place of the innermost one.
    fn exchange(&mut self, frame: Frame, mode: Mode) -> (r: bool)
        requires
            old(self)@.stack.len() > 0,
        ensures
            r,
            final(self)@ == (MachineModel { mode, stack: old(self)@.stack.drop_last().push(frame) }),
    {
        self.stack.pop();
        self.stack.push(frame);
        self.mode = mode;
        true
    }

    /// An operand without a sign.
    fn primary(&mut self, t: Tok) -> (r: bool)
        ensures
            stepped(final(self)@, r, old(self)@.primary(t)),
    {
        match t {
            Tok::Ident => self.to(Mode::Path),
            Tok::Number => self.to(Mode::Done),
            Tok::Literal => self.to(Mode::Done),
            Tok::Dot => self.to(Mode::LeadingDot),
            Tok::LParen => self.open(Frame::Group, Mode::Operand),
            Tok::LBracket => self.open(Frame::List, Mode::ListStart),
            Tok::LBrace => self.open(Frame::Key, Mode::KeyStart),
            _ => false,
        }
    }

    /// An operand.
    fn operand(&mut self, t: Tok) -> (r: bool)
        ensures
            stepped(final(self)@, r, old(self)@.operand(t)),
    {
        match t {
            Tok::Bang => self.to(Mode::Negated),
            Tok::Minus => self.to(Mode::Signed),
            _ => self.primary(t),
        }
    }

    /// What follows an operand.
    fn follow(&mut self, t: Tok) -> (r: bool)
        ensures
            stepped(final(self)@, r, old(self)@.follow(t)),
    {
        let top = self.top();
        match t {
            Tok::Infix => self.to(Mode::Operand),
            Tok::Minus => self.to(Mode::Operand),
            Tok::Dot => self.to(Mode::SelectDot),
            Tok::LBracket => self.open(Frame::Index, Mode::IndexStart),
            Tok::Question => match top {
                Some(Frame::Choice) => false,
                _ => self.open(Frame::Choice, Mode::Operand),
            },
            Tok::Colon => match top {
                Some(Frame::Choice) => self.close(Mode::Operand),
                Some(Frame::Key) => self.exchange(Frame::Value, Mode::Operand),
                _ => false,
            },
            Tok::Comma => match top {
                Some(Frame::Args) => self.to(Mode::Operand),
                Some(Frame::List) => self.to(Mode::ListNext),
                Some(Frame::Value) => self.exchange(Frame::Key, Mode::KeyNext),
                Some(Frame::Field) => self.to(Mode::FieldNext),
                _ => false,
            },
            Tok::RParen => match top {
                Some(Frame::Group) => self.close(Mode::Done),
                Some(Frame::Args) => self.close(Mode::Done),
                _ => false,
            },
            Tok::RBracket => match top {
                Some(Frame::Index) => self.close(Mode::Done),
                Some(Frame::List) => self.close(Mode::Done),
                _ => false,
            },
            Tok::RBrace => match top {
                Some(Frame::Value) => self.close(Mode::Done),
                Some(Frame::Field) => self.close(Mode::Done),
                _ => false,
            },
            _ => false,
        }
    }

    /// The name of a field.
    fn field(&mut self, t: Tok) -> (r: bool)
        ensures
            stepped(final(self)@, r, old(self)@.field(t)),
    {
        match t {
            Tok::Ident => self.to(Mode::FieldColon),
            Tok::Quoted => self.to(Mode::FieldColon),
            _ => false,
        }
    }

    /// The next token, where an operand or the end of a bracket may come.
    fn step_inside(&mut self, t: Tok) -> (r: bool)
        requires
            old(self)@.mode != Mode::LeadingDot,
            old(self)@.mode != Mode::PathDot,
            old(self)@.mode != Mode::SelectDot,
            old(self)@.mode != Mode::OptionalName,
            old(self)@.mode != Mode::Path,
            old(self)@.mode != Mode::Selected,
            old(self)@.mode != Mode::Done,
        ensures
            stepped(final(self)@, r, old(self)@.step(t)),
    {
        match (self.mode, t) {
            (Mode::Negated, Tok::Bang) => true,
            (Mode::Negated, Tok::Minus) => self.to(Mode::Number),
            (Mode::Negated, _) => self.primary(t),
            (Mode::Signed, Tok::Minus) => true,
            (Mode::Signed, _) => self.primary(t),
            (Mode::Number, Tok::Number) => self.to(Mode::Done),
            (Mode::Number, _) => false,
            (Mode::ArgsStart, Tok::RParen) => self.close(Mode::Done),
            (Mode::ListStart, Tok::RBracket) => self.close(Mode::Done),
            (Mode::ListStart, Tok::Comma) => self.to(Mode::ListEnd),
            (Mode::ListStart, Tok::Question) => self.to(Mode::Operand),
            (Mode::ListNext, Tok::RBracket) => self.close(Mode::Done),
            (Mode::ListNext, Tok::Question) => self.to(Mode::Operand),
            (Mode::ListEnd, Tok::RBracket) => self.close(Mode::Done),
            (Mode::ListEnd, _) => false,
            (Mode::KeyStart, Tok::RBrace) => self.close(Mode::Done),
            (Mode::KeyStart, Tok::Comma) => self.to(Mode::BraceEnd),
            (Mode::KeyStart, Tok::Question) => self.to(Mode::Operand),
            (Mode::KeyNext, Tok::RBrace) => self.close(Mode::Done),
            (Mode::KeyNext, Tok::Question) => self.to(Mode::Operand),
            (Mode::BraceEnd, Tok::RBrace) => self.close(Mode::Done),
            (Mode::BraceEnd, _) => false,
            (Mode::IndexStart, Tok::Question) => self.to(Mode::Operand),
            (Mode::FieldStart, Tok::RBrace) => self.close(Mode::Done),
            (Mode::FieldStart, Tok::Comma) => self.to(Mode::BraceEnd),
            (Mode::FieldStart, Tok::Question) => self.to(Mode::FieldName),
            (Mode::FieldStart, _) => self.field(t),
            (Mode::FieldNext, Tok::RBrace) => self.close(Mode::Done),
            (Mode::FieldNext, Tok::Question) => self.to(Mode::FieldName),
            (Mode::FieldNext, _) => self.field(t),
            (Mode::FieldName, _) => self.field(t),
            (Mode::FieldColon, Tok::Colon) => self.to(Mode::Operand),
            (Mode::FieldColon, _) => false,
            _ => self.operand(t),
        }
    }

    /// The next token.
    fn step(&mut self, t: Tok) -> (r: bool)
        ensures
            stepped(final(self)@, r, old(self)@.step(t)),
    {
        match (self.mode, t) {
            (Mode::LeadingDot, Tok::Ident) => self.to(Mode::Path),
            (Mode::LeadingDot, _) => false,
            (Mode::PathDot, Tok::Ident) => self.to(Mode::Path),
            (Mode::SelectDot, Tok::Ident) => self.to(Mode::Selected),
            (Mode::PathDot, Tok::Quoted) => self.to(Mode::Done),
            (Mode::SelectDot, Tok::Quoted) => self.to(Mode::Done),
            (Mode::PathDot, Tok::Question) => self.to(Mode::OptionalName),
            (Mode::SelectDot, Tok::Question) => self.to(Mode::OptionalName),
            (Mode::PathDot, _) => false,
            (Mode::SelectDot, _) => false,
            (Mode::OptionalName, Tok::Ident) => self.to(Mode::Done),
            (Mode::OptionalName, Tok::Quoted) => self.to(Mode::Done),
            (Mode::OptionalName, _) => false,
            (Mode::Path, Tok::LParen) => self.open(Frame::Args, Mode::ArgsStart),
            (Mode::Path, Tok::LBrace) => self.open(Frame::Field, Mode::FieldStart),
            (Mode::Path, Tok::Dot) => self.to(Mode::PathDot),
            (Mode::Path, _) => self.follow(t),
            (Mode::Selected, Tok::LParen) => self.open(Frame::Args, Mode::ArgsStart),
            (Mode::Selected, _) => self.follow(t),
            (Mode::Done, _) => self.follow(t),
            _ => self.step_inside(t),
        }
    }

    /// Whether an expression may end here.
    fn accepting(&self) -> (r: bool)
        ensures
            r == self@.accepting(),
    {
        self.stack.len() == 0 && match self.mode {
            Mode::Path => true,
            Mode::Selected => true,
            Mode::Done => true,
            _ => false,
        }
    }
}

/// Whether a text is an expression.
pub fn check_expression(text: &str) -> (r: bool)
    ensures
        r == is_expression(text@),
{
    let chars = chars_of(text);
    let s = chars.as_slice();
    let n: usize = s.len();
    let mut m = Machine { mode: Mode::Operand, stack: Vec::new() };
    let mut i: usize = 0;
    assert(m@.stack =~= Seq::<Frame>::empty());
    while i < n
        invariant
            i <= n == s@.len(),
            s@ == text@,
            is_expression(s@) == completes(s@, i as int, m@),
        decreases n - i,
    {
        match lex(s, i) {
            None => {
                return false;
            },
            Some((t, e)) => {
                match t {
                    Tok::Skip => {},
                    _ => {
                        if !m.step(t) {
                            return false;
                        }
                    },
                }
                i = e;
            },
        }
    }
    m.accepting()
}

} // verus!
