//! CEL expressions: the tree that a policy expression parses to.
//!
//! Parsing itself is done by the `cel-parser` crate, which also expands the
//! comprehension macros (`exists`, `all`, `map`, `filter`).

use super::syntax::{check_expression, is_expression};
use crate::text::str_eq;
use cel_parser::{ast, reference};
use vstd::prelude::*;

verus! {

/// A CEL expression.
#[derive(Debug)]
pub enum CelExpr {
    Ident(String),
    Literal(CelLiteral),
    Select { operand: Box<CelExpr>, field: String },
    List(Vec<CelExpr>),
    Call(CelCall),
    Fold(Box<CelFold>),
    Record(Vec<CelEntry>),
    /// A struct literal, or no expression at all.
    Other,
}

/// A literal.
#[derive(Debug)]
pub enum CelLiteral {
    Text(String),
    Int(i64),
    Bool(bool),
    Null,
    /// An unsigned integer, a floating-point number or a byte string.
    Other,
}

/// A call `func_name(args)` or `target.func_name(args)`. Operators are calls
/// too: `a == b` calls `_==_`.
#[derive(Debug)]
pub struct CelCall {
    pub func_name: String,
    pub target: Option<Box<CelExpr>>,
    pub args: Vec<CelExpr>,
}

/// A comprehension: a fold of `loop_step` over a list, stopped by `loop_cond`.
#[derive(Debug)]
pub struct CelFold {
    pub iter_range: CelExpr,
    pub iter_var: String,
    pub accu_var: String,
    pub accu_init: CelExpr,
    pub loop_cond: CelExpr,
    pub loop_step: CelExpr,
    pub result: CelExpr,
}

/// An entry of a map literal.
#[derive(Debug)]
pub enum CelEntry {
    Pair { key: CelExpr, value: CelExpr },
    Field,
}

/// `cel_parser::ast::IdedExpr`.
#[verifier::external_type_specification]
#[verifier::external_body]
pub struct ExIdedExpr(ast::IdedExpr);

/// `cel_parser::ast::IdedEntryExpr`.
#[verifier::external_type_specification]
#[verifier::external_body]
pub struct ExIdedEntryExpr(ast::IdedEntryExpr);

/// `cel_parser::ast::CallExpr`.
#[verifier::external_type_specification]
#[verifier::external_body]
pub struct ExCallExpr(ast::CallExpr);

/// `cel_parser::ast::ComprehensionExpr`.
#[verifier::external_type_specification]
#[verifier::external_body]
pub struct ExComprehensionExpr(ast::ComprehensionExpr);

/// `cel_parser::reference::Val`.
#[verifier::external_type_specification]
#[verifier::external_body]
pub struct ExVal(reference::Val);

/// A `reference::Val` in this library's type, variant by variant.
#[verifier::external_body]
fn convert_literal(val: reference::Val) -> CelLiteral {
    match val {
        reference::Val::String(s) => CelLiteral::Text(s),
        reference::Val::Int(n) => CelLiteral::Int(n),
        reference::Val::Boolean(b) => CelLiteral::Bool(b),
        reference::Val::Null => CelLiteral::Null,
        reference::Val::UInt(_) => CelLiteral::Other,
        reference::Val::Double(_) => CelLiteral::Other,
        reference::Val::Bytes(_) => CelLiteral::Other,
    }
}

/// An `ast::IdedEntryExpr` in this library's type, variant by variant.
#[verifier::external_body]
fn convert_entry(entry: ast::IdedEntryExpr) -> CelEntry {
    match entry.expr {
        ast::EntryExpr::MapEntry(m) => {
            CelEntry::Pair { key: convert_expr(m.key), value: convert_expr(m.value) }
        },
        ast::EntryExpr::StructField(_) => CelEntry::Field,
    }
}

/// An `ast::CallExpr` in this library's type, field by field.
#[verifier::external_body]
fn convert_call(call: ast::CallExpr) -> CelExpr {
    CelExpr::Call(
        CelCall {
            func_name: call.func_name,
            target: call.target.map(|t| Box::new(convert_expr(*t))),
            args: call.args.into_iter().map(convert_expr).collect(),
        },
    )
}

/// An `ast::ComprehensionExpr` in this library's type, field by field.
#[verifier::external_body]
fn convert_fold(comp: ast::ComprehensionExpr) -> CelExpr {
    CelExpr::Fold(
        Box::new(
            CelFold {
                iter_range: convert_expr(*comp.iter_range),
                iter_var: comp.iter_var,
                accu_var: comp.accu_var,
                accu_init: convert_expr(*comp.accu_init),
                loop_cond: convert_expr(*comp.loop_cond),
                loop_step: convert_expr(*comp.loop_step),
                result: convert_expr(*comp.result),
            },
        ),
    )
}

/// An `ast::IdedExpr` in this library's type, variant by variant. Node
/// identifiers are not kept.
#[verifier::external_body]
fn convert_expr(expr: ast::IdedExpr) -> CelExpr {
    match expr.expr {
        ast::Expr::Ident(name) => CelExpr::Ident(name),
        ast::Expr::Literal(val) => CelExpr::Literal(convert_literal(val)),
        ast::Expr::Select(s) => {
            CelExpr::Select { operand: Box::new(convert_expr(*s.operand)), field: s.field }
        },
        ast::Expr::List(l) => CelExpr::List(l.elements.into_iter().map(convert_expr).collect()),
        ast::Expr::Call(c) => convert_call(c),
        ast::Expr::Comprehension(c) => convert_fold(c),
        ast::Expr::Map(m) => CelExpr::Record(m.entries.into_iter().map(convert_entry).collect()),
        ast::Expr::Struct(_) => CelExpr::Other,
        ast::Expr::Unspecified => CelExpr::Other,
    }
}

/// What `cel_parser::Parser::parse` makes of an expression: the tree, or its
/// errors as `Debug` writes them.
pub uninterp spec fn parsed_cel(text: Seq<char>) -> Result<CelExpr, Seq<char>>;

/// `cel_parser::Parser::parse` on `text`: the tree it builds, converted node by
/// node, or its errors as `Debug` writes them. The result depends on `text`
/// alone. On a text that breaks the grammar the parser goes on with a partial tree
/// and panics where an operand is missing from it. Which operands it misses its
/// source does not say in few words, so no such text is handed to it.
#[verifier::external_body]
fn parse_tree(text: &str) -> (r: Result<CelExpr, String>)
    requires
        is_expression(text@),
    ensures
        match r {
            Ok(e) => parsed_cel(text@) == Ok::<CelExpr, Seq<char>>(e),
            Err(m) => parsed_cel(text@) == Err::<CelExpr, Seq<char>>(m@),
        },
{
    match cel_parser::Parser::new().parse(text) {
        Ok(e) => Ok(convert_expr(e)),
        Err(e) => Err(format!("{:?}", e)),
    }
}

/// The text for what is no expression. The parser is not asked for its own errors
/// on such a text: it builds a partial tree there, and walking one in which an
/// operand is missing panics.
pub const NO_EXPRESSION: &'static str = "syntax error";

/// The expression that a text is, or why it is none.
pub open spec fn cel_of(text: Seq<char>) -> Result<CelExpr, Seq<char>> {
    if is_expression(text) {
        parsed_cel(text)
    } else {
        Err(NO_EXPRESSION@)
    }
}

/// The expression that a text is, or why it is none.
pub fn parse_cel(text: &str) -> (r: Result<CelExpr, String>)
    ensures
        match r {
            Ok(e) => cel_of(text@) == Ok::<CelExpr, Seq<char>>(e),
            Err(m) => cel_of(text@) == Err::<CelExpr, Seq<char>>(m@),
        },
{
    if check_expression(text) {
        parse_tree(text)
    } else {
        Err(NO_EXPRESSION.to_owned())
    }
}

/// Whether an expression selects `command.<field>` somewhere outside map
/// literals.
pub open spec fn mentions_command_field(e: CelExpr, field: Seq<char>) -> bool
    decreases e,
{
    match e {
        CelExpr::Select { operand, field: name } => {
            ||| name@ == field && (match *operand {
                CelExpr::Ident(id) => id@ == "command"@,
                _ => false,
            })
            ||| mentions_command_field(*operand, field)
        },
        CelExpr::Call(c) => {
            ||| exists|i: int|
                0 <= i < c.args@.len() && mentions_command_field(#[trigger] c.args@[i], field)
            ||| (match c.target {
                Some(t) => mentions_command_field(*t, field),
                None => false,
            })
        },
        CelExpr::List(v) => exists|i: int|
            0 <= i < v@.len() && mentions_command_field(#[trigger] v@[i], field),
        CelExpr::Fold(f) => mentions_command_field(f.iter_range, field) || mentions_command_field(
            f.accu_init,
            field,
        ) || mentions_command_field(f.loop_cond, field) || mentions_command_field(
            f.loop_step,
            field,
        ) || mentions_command_field(f.result, field),
        _ => false,
    }
}

/// Whether an expression selects `command.<field>` directly. A select on the
/// parent (`command.parent.<field>`) does not count.
pub fn references_command_field(e: &CelExpr, field: &str) -> (r: bool)
    ensures
        r == mentions_command_field(*e, field@),
    decreases e, 0nat,
{
    match e {
        CelExpr::Select { operand, field: name } => {
            if str_eq(name.as_str(), field) {
                if let CelExpr::Ident(id) = &**operand {
                    if str_eq(id.as_str(), "command") {
                        return true;
                    }
                }
            }
            references_command_field(operand, field)
        },
        CelExpr::Call(c) => {
            if any_references(&c.args, field) {
                return true;
            }
            match &c.target {
                Some(t) => references_command_field(t, field),
                None => false,
            }
        },
        CelExpr::List(v) => any_references(v, field),
        CelExpr::Fold(f) => references_command_field(&f.iter_range, field)
            || references_command_field(&f.accu_init, field) || references_command_field(
            &f.loop_cond,
            field,
        ) || references_command_field(&f.loop_step, field) || references_command_field(
            &f.result,
            field,
        ),
        _ => false,
    }
}

/// Whether any of the expressions selects `command.<field>`.
fn any_references(v: &Vec<CelExpr>, field: &str) -> (r: bool)
    ensures
        r == exists|i: int| 0 <= i < v@.len() && mentions_command_field(#[trigger] v@[i], field@),
    decreases v, 0nat,
{
    let mut i: usize = 0;
    while i < v.len()
        invariant
            i <= v@.len(),
            forall|j: int| 0 <= j < i ==> !mentions_command_field(#[trigger] v@[j], field@),
        decreases v@.len() - i,
    {
        if references_command_field(&v[i], field) {
            return true;
        }
        i = i + 1;
    }
    false
}

/// A select of a field of `command` is seen wherever it stands: as an argument or
/// the target of a call, in a list, in a part of a fold, or under another select.
/// Names and literals select nothing.
pub proof fn select_is_seen_everywhere(e: CelExpr, field: Seq<char>, i: int)
    ensures
        e matches CelExpr::Select { operand, field: name } ==> (name@ == field
            && (*operand matches CelExpr::Ident(id) && id@ == "command"@))
            || mentions_command_field(*operand, field) ==> mentions_command_field(e, field),
        e matches CelExpr::Call(c) ==> 0 <= i < c.args@.len() && mentions_command_field(
            c.args@[i],
            field,
        ) ==> mentions_command_field(e, field),
        e matches CelExpr::Call(c) ==> (c.target matches Some(t) && mentions_command_field(
            *t,
            field,
        )) ==> mentions_command_field(e, field),
        e matches CelExpr::List(v) ==> 0 <= i < v@.len() && mentions_command_field(v@[i], field)
            ==> mentions_command_field(e, field),
        e matches CelExpr::Fold(f) ==> mentions_command_field(f.iter_range, field)
            || mentions_command_field(f.accu_init, field) || mentions_command_field(
            f.loop_cond,
            field,
        ) || mentions_command_field(f.loop_step, field) || mentions_command_field(f.result, field)
            ==> mentions_command_field(e, field),
        e is Ident || e is Literal ==> !mentions_command_field(e, field),
{
}

} // verus!
