//! What the syntax of policy expressions accepts and what it refuses.

use super::syntax::{
    comment_end, completes, decimals_end, ident_end, ident_start, is_decimal, is_expression,
    is_quote, text_end, token_at, Frame, MachineModel, Mode, Tok,
};
use vstd::prelude::*;

verus! {

/// The machine after some tokens; none where one of them cannot stand there.
pub open spec fn run(m: MachineModel, tokens: Seq<Tok>) -> Option<MachineModel>
    decreases tokens.len(),
{
    if tokens.len() == 0 {
        Some(m)
    } else {
        match m.step(tokens[0]) {
            Some(next) => run(next, tokens.drop_first()),
            None => None,
        }
    }
}

/// Whether tokens make an expression.
pub open spec fn is_sentence(tokens: Seq<Tok>) -> bool {
    run(MachineModel::start(), tokens) matches Some(m) && m.accepting()
}

/// The tokens of a text from `i` on, without white space and comments; none where
/// it cannot be cut into tokens.
pub open spec fn tokens_from(s: Seq<char>, i: int) -> Option<Seq<Tok>>
    decreases s.len() - i,
{
    if i >= s.len() {
        Some(Seq::empty())
    } else {
        match token_at(s, i) {
            Some((t, e)) => if i < e <= s.len() {
                match tokens_from(s, e) {
                    Some(rest) => Some(
                        if t == Tok::Skip {
                            rest
                        } else {
                            seq![t] + rest
                        },
                    ),
                    None => None,
                }
            } else {
                None
            },
            None => None,
        }
    }
}

/// Completing an expression is to have tokens that do.
proof fn completing_is_by_tokens(s: Seq<char>, i: int, m: MachineModel)
    ensures
        completes(s, i, m) <==> (tokens_from(s, i) matches Some(v) && (run(m, v) matches Some(end)
            && end.accepting())),
    decreases s.len() - i,
{
    if i < s.len() {
        if let Some((t, e)) = token_at(s, i) {
            if i < e <= s.len() {
                if t == Tok::Skip {
                    completing_is_by_tokens(s, e, m);
                } else {
                    if let Some(next) = m.step(t) {
                        completing_is_by_tokens(s, e, next);
                    }
                    if let Some(rest) = tokens_from(s, e) {
                        let all = seq![t] + rest;
                        assert(all[0] == t);
                        assert(all.drop_first() =~= rest);
                    }
                }
            }
        }
    }
}

/// A text is an expression exactly where it can be cut into tokens that make one:
/// white space and comments do not count.
pub proof fn expressions_are_sentences(s: Seq<char>)
    ensures
        is_expression(s) <==> (tokens_from(s, 0) matches Some(v) && is_sentence(v)),
{
    completing_is_by_tokens(s, 0, MachineModel::start());
}

/// Tokens can be taken in two goes.
proof fn run_in_two(m: MachineModel, a: Seq<Tok>, b: Seq<Tok>)
    ensures
        run(m, a + b) == (match run(m, a) {
            Some(next) => run(next, b),
            None => None,
        }),
    decreases a.len(),
{
    let all = a + b;
    if a.len() == 0 {
        assert(all =~= b);
    } else {
        assert(all[0] == a[0]);
        assert(all.drop_first() =~= a.drop_first() + b);
        if let Some(next) = m.step(a[0]) {
            run_in_two(next, a.drop_first(), b);
        }
    }
}

/// The machine with more brackets open around it.
pub open spec fn inside(stack: Seq<Frame>, m: MachineModel) -> MachineModel {
    MachineModel { mode: m.mode, stack: stack + m.stack }
}

/// What is accepted on its own is accepted between brackets.
#[verifier::rlimit(50)]
proof fn step_inside(stack: Seq<Frame>, m: MachineModel, t: Tok)
    requires
        stack.len() == 0 || stack.last() != Frame::Choice,
        m.step(t) is Some,
    ensures
        inside(stack, m).step(t) == Some(inside(stack, m.step(t)->0)),
{
    let whole = stack + m.stack;
    let now = m.step(t)->0;
    assert((stack + m.stack.push(Frame::Group)) =~= whole.push(Frame::Group));
    assert((stack + m.stack.push(Frame::Args)) =~= whole.push(Frame::Args));
    assert((stack + m.stack.push(Frame::List)) =~= whole.push(Frame::List));
    assert((stack + m.stack.push(Frame::Index)) =~= whole.push(Frame::Index));
    assert((stack + m.stack.push(Frame::Key)) =~= whole.push(Frame::Key));
    assert((stack + m.stack.push(Frame::Field)) =~= whole.push(Frame::Field));
    assert((stack + m.stack.push(Frame::Choice)) =~= whole.push(Frame::Choice));
    if m.stack.len() > 0 {
        assert(whole.last() == m.stack.last());
        assert((stack + m.stack.drop_last()) =~= whole.drop_last());
        assert((stack + m.stack.drop_last().push(Frame::Value)) =~= whole.drop_last().push(
            Frame::Value,
        ));
        assert((stack + m.stack.drop_last().push(Frame::Key)) =~= whole.drop_last().push(
            Frame::Key,
        ));
    } else {
        assert(whole =~= stack);
    }
}

/// The same for many tokens.
proof fn run_inside(stack: Seq<Frame>, m: MachineModel, tokens: Seq<Tok>)
    requires
        stack.len() == 0 || stack.last() != Frame::Choice,
        run(m, tokens) is Some,
    ensures
        run(inside(stack, m), tokens) == Some(inside(stack, run(m, tokens)->0)),
    decreases tokens.len(),
{
    if tokens.len() > 0 {
        step_inside(stack, m, tokens[0]);
        run_inside(stack, m.step(tokens[0])->0, tokens.drop_first());
    }
}

/// A sentence inside brackets ends where an operand has ended, with those brackets
/// still open.
proof fn sentence_inside(stack: Seq<Frame>, a: Seq<Tok>) -> (end: MachineModel)
    requires
        is_sentence(a),
        stack.len() == 0 || stack.last() != Frame::Choice,
    ensures
        run((MachineModel { mode: Mode::Operand, stack }), a) == Some(end),
        end.stack == stack,
        end.mode == Mode::Path || end.mode == Mode::Selected || end.mode == Mode::Done,
{
    let m = MachineModel::start();
    run_inside(stack, m, a);
    let own = run(m, a)->0;
    let end = inside(stack, own);
    assert(stack + m.stack =~= stack);
    assert(stack + own.stack =~= stack);
    end
}

/// One token more.
proof fn one_token(m: MachineModel, t: Tok)
    ensures
        run(m, seq![t]) == m.step(t),
{
    reveal_with_fuel(run, 2);
    assert(seq![t][0] == t);
}

/// Expressions put together are an expression: by an operator, and in brackets.
pub proof fn operators_and_groups(a: Seq<Tok>, b: Seq<Tok>)
    requires
        is_sentence(a),
        is_sentence(b),
    ensures
        is_sentence(a + seq![Tok::Infix] + b),
        is_sentence(a + seq![Tok::Minus] + b),
        is_sentence(seq![Tok::LParen] + a + seq![Tok::RParen]),
{
    let start = MachineModel::start();
    let none = Seq::<Frame>::empty();
    let after = sentence_inside(none, a);
    let end = sentence_inside(none, b);
    one_token(after, Tok::Infix);
    one_token(after, Tok::Minus);
    run_in_two(start, a, seq![Tok::Infix]);
    run_in_two(start, a, seq![Tok::Minus]);
    run_in_two(start, a + seq![Tok::Infix], b);
    run_in_two(start, a + seq![Tok::Minus], b);
    let open = none.push(Frame::Group);
    let within = sentence_inside(open, a);
    one_token(start, Tok::LParen);
    one_token(within, Tok::RParen);
    run_in_two(start, seq![Tok::LParen], a);
    run_in_two(start, seq![Tok::LParen] + a, seq![Tok::RParen]);
}

/// A choice: a condition, a branch in brackets, and another branch.
pub proof fn choices(a: Seq<Tok>, b: Seq<Tok>, c: Seq<Tok>)
    requires
        is_sentence(a),
        is_sentence(b),
        is_sentence(c),
    ensures
        is_sentence(
            a + seq![Tok::Question] + seq![Tok::LParen] + b + seq![Tok::RParen] + seq![Tok::Colon]
                + c,
        ),
{
    let start = MachineModel::start();
    let none = Seq::<Frame>::empty();
    let m1 = sentence_inside(none, a);
    let open = none.push(Frame::Choice);
    let m2 = MachineModel { mode: Mode::Operand, stack: open };
    one_token(m1, Tok::Question);
    let m3 = MachineModel { mode: Mode::Operand, stack: open.push(Frame::Group) };
    one_token(m2, Tok::LParen);
    let m4 = sentence_inside(open.push(Frame::Group), b);
    assert(open.push(Frame::Group).drop_last() =~= open);
    let m5 = MachineModel { mode: Mode::Done, stack: open };
    one_token(m4, Tok::RParen);
    assert(open.drop_last() =~= none);
    one_token(m5, Tok::Colon);
    let m6 = sentence_inside(none, c);
    let t1 = a + seq![Tok::Question];
    let t2 = t1 + seq![Tok::LParen];
    let t3 = t2 + b;
    let t4 = t3 + seq![Tok::RParen];
    let t5 = t4 + seq![Tok::Colon];
    run_in_two(start, a, seq![Tok::Question]);
    run_in_two(start, t1, seq![Tok::LParen]);
    run_in_two(start, t2, b);
    run_in_two(start, t3, seq![Tok::RParen]);
    run_in_two(start, t4, seq![Tok::Colon]);
    run_in_two(start, t5, c);
}

/// Calls, indexes, lists and maps of expressions.
pub proof fn calls_and_collections(a: Seq<Tok>, b: Seq<Tok>)
    requires
        is_sentence(a),
        is_sentence(b),
    ensures
        is_sentence(seq![Tok::Ident, Tok::LParen, Tok::RParen]),
        is_sentence(
            seq![Tok::Ident, Tok::LParen] + a + seq![Tok::Comma] + b + seq![Tok::RParen],
        ),
        is_sentence(a + seq![Tok::LBracket] + b + seq![Tok::RBracket]),
        is_sentence(seq![Tok::LBracket] + a + seq![Tok::Comma] + b + seq![Tok::RBracket]),
        is_sentence(seq![Tok::LBrace] + a + seq![Tok::Colon] + b + seq![Tok::RBrace]),
{
    let start = MachineModel::start();
    let none = Seq::<Frame>::empty();
    let after = sentence_inside(none, a);
    // A call.
    let args = none.push(Frame::Args);
    assert(args.drop_last() =~= none);
    let name = MachineModel { mode: Mode::Path, stack: none };
    let begun = MachineModel { mode: Mode::ArgsStart, stack: args };
    one_token(start, Tok::Ident);
    one_token(name, Tok::LParen);
    one_token(begun, Tok::RParen);
    assert(seq![Tok::Ident, Tok::LParen] =~= seq![Tok::Ident] + seq![Tok::LParen]);
    assert(seq![Tok::Ident, Tok::LParen, Tok::RParen] =~= seq![Tok::Ident, Tok::LParen]
        + seq![Tok::RParen]);
    run_in_two(start, seq![Tok::Ident], seq![Tok::LParen]);
    run_in_two(start, seq![Tok::Ident, Tok::LParen], seq![Tok::RParen]);
    first_is_an_operand(args, Mode::ArgsStart, a);
    listed(seq![Tok::Ident, Tok::LParen], args, Mode::ArgsStart, a, b, Tok::RParen);
    // An index.
    let index = none.push(Frame::Index);
    assert(index.drop_last() =~= none);
    one_token(after, Tok::LBracket);
    first_is_an_operand(index, Mode::IndexStart, b);
    let at_index = sentence_inside(index, b);
    one_token(at_index, Tok::RBracket);
    run_in_two(start, a, seq![Tok::LBracket]);
    run_in_two(start, a + seq![Tok::LBracket], b);
    run_in_two(start, a + seq![Tok::LBracket] + b, seq![Tok::RBracket]);
    // A list.
    let list = none.push(Frame::List);
    assert(list.drop_last() =~= none);
    one_token(start, Tok::LBracket);
    first_is_an_operand(list, Mode::ListStart, a);
    first_is_an_operand(list, Mode::ListNext, b);
    listed(seq![Tok::LBracket], list, Mode::ListStart, a, b, Tok::RBracket);
    // A map.
    let key = none.push(Frame::Key);
    let value = none.push(Frame::Value);
    assert(key.drop_last() =~= none && value.drop_last() =~= none);
    one_token(start, Tok::LBrace);
    first_is_an_operand(key, Mode::KeyStart, a);
    let at_key = sentence_inside(key, a);
    one_token(at_key, Tok::Colon);
    let at_value = sentence_inside(value, b);
    one_token(at_value, Tok::RBrace);
    let t1 = seq![Tok::LBrace] + a;
    let t2 = t1 + seq![Tok::Colon];
    run_in_two(start, seq![Tok::LBrace], a);
    run_in_two(start, t1, seq![Tok::Colon]);
    run_in_two(start, t2, b);
    run_in_two(start, t2 + b, seq![Tok::RBrace]);
}

/// Where a bracket has just been opened, an operand is taken as anywhere.
proof fn first_is_an_operand(stack: Seq<Frame>, mode: Mode, a: Seq<Tok>)
    requires
        is_sentence(a),
        mode == Mode::ArgsStart || mode == Mode::ListStart || mode == Mode::ListNext || mode
            == Mode::KeyStart || mode == Mode::IndexStart,
    ensures
        run((MachineModel { mode, stack }), a) == run(
            (MachineModel { mode: Mode::Operand, stack }),
            a,
        ),
{
    let start = MachineModel::start();
    assert(a.len() > 0);
    assert(start.step(a[0]) is Some);
}

/// Two expressions with a comma between them, once a bracket has been opened.
proof fn listed(
    opening: Seq<Tok>,
    stack: Seq<Frame>,
    mode: Mode,
    a: Seq<Tok>,
    b: Seq<Tok>,
    closing: Tok,
)
    requires
        is_sentence(a),
        is_sentence(b),
        stack == seq![Frame::Args] && mode == Mode::ArgsStart && closing == Tok::RParen || stack
            == seq![Frame::List] && mode == Mode::ListStart && closing == Tok::RBracket,
        run(MachineModel::start(), opening) == Some((MachineModel { mode, stack })),
    ensures
        is_sentence(opening + a + seq![Tok::Comma] + b + seq![closing]),
{
    let start = MachineModel::start();
    let none = Seq::<Frame>::empty();
    assert(stack.drop_last() =~= none);
    first_is_an_operand(stack, mode, a);
    let m1 = sentence_inside(stack, a);
    one_token(m1, Tok::Comma);
    first_is_an_operand(stack, Mode::ListNext, b);
    let m2 = sentence_inside(stack, b);
    one_token(m2, closing);
    let t1 = opening + a;
    let t2 = t1 + seq![Tok::Comma];
    run_in_two(start, opening, a);
    run_in_two(start, t1, seq![Tok::Comma]);
    run_in_two(start, t2, b);
    run_in_two(start, t2 + b, seq![closing]);
}

/// Names, numbers and literals are expressions, and so are selected fields and
/// negations.
pub proof fn operands_are_sentences(a: Seq<Tok>)
    requires
        is_sentence(a),
    ensures
        is_sentence(seq![Tok::Ident]),
        is_sentence(seq![Tok::Number]),
        is_sentence(seq![Tok::Literal]),
        is_sentence(a + seq![Tok::Dot] + seq![Tok::Ident]),
        is_sentence(seq![Tok::Bang] + seq![Tok::LParen] + a + seq![Tok::RParen]),
        is_sentence(seq![Tok::Minus] + seq![Tok::LParen] + a + seq![Tok::RParen]),
{
    let start = MachineModel::start();
    let none = Seq::<Frame>::empty();
    one_token(start, Tok::Ident);
    one_token(start, Tok::Number);
    one_token(start, Tok::Literal);
    let after = sentence_inside(none, a);
    one_token(after, Tok::Dot);
    one_token(MachineModel { mode: Mode::PathDot, stack: none }, Tok::Ident);
    one_token(MachineModel { mode: Mode::SelectDot, stack: none }, Tok::Ident);
    run_in_two(start, a, seq![Tok::Dot]);
    run_in_two(start, a + seq![Tok::Dot], seq![Tok::Ident]);
    let open = none.push(Frame::Group);
    assert(open.drop_last() =~= none);
    let within = sentence_inside(open, a);
    one_token(within, Tok::RParen);
    one_token(start, Tok::Bang);
    one_token(start, Tok::Minus);
    one_token(MachineModel { mode: Mode::Negated, stack: none }, Tok::LParen);
    one_token(MachineModel { mode: Mode::Signed, stack: none }, Tok::LParen);
    run_in_two(start, seq![Tok::Bang], seq![Tok::LParen]);
    run_in_two(start, seq![Tok::Bang] + seq![Tok::LParen], a);
    run_in_two(start, seq![Tok::Bang] + seq![Tok::LParen] + a, seq![Tok::RParen]);
    run_in_two(start, seq![Tok::Minus], seq![Tok::LParen]);
    run_in_two(start, seq![Tok::Minus] + seq![Tok::LParen], a);
    run_in_two(start, seq![Tok::Minus] + seq![Tok::LParen] + a, seq![Tok::RParen]);
}

/// How often a token occurs.
pub open spec fn occurrences(tokens: Seq<Tok>, t: Tok) -> nat
    decreases tokens.len(),
{
    if tokens.len() == 0 {
        0
    } else {
        occurrences(tokens.drop_first(), t) + (if tokens[0] == t {
            1nat
        } else {
            0
        })
    }
}

/// How many of the open brackets are closed by a token.
pub open spec fn closed_by(stack: Seq<Frame>, t: Tok) -> nat
    decreases stack.len(),
{
    if stack.len() == 0 {
        0
    } else {
        let f = stack.last();
        closed_by(stack.drop_last(), t) + (if (t == Tok::RParen && (f == Frame::Group || f
            == Frame::Args)) || (t == Tok::RBracket && (f == Frame::Index || f == Frame::List)) || (
        t == Tok::RBrace && (f == Frame::Key || f == Frame::Value || f == Frame::Field)) {
            1nat
        } else {
            0
        })
    }
}

/// A bracket more or less.
#[verifier::rlimit(50)]
proof fn step_counts(m: MachineModel, t: Tok, opening: Tok, closing: Tok)
    requires
        m.step(t) is Some,
        opening == Tok::LParen && closing == Tok::RParen || opening == Tok::LBracket && closing
            == Tok::RBracket || opening == Tok::LBrace && closing == Tok::RBrace,
        consistent(m),
    ensures
        consistent(m.step(t)->0),
        closed_by(m.step(t)->0.stack, closing) == closed_by(m.stack, closing) + (if t == opening {
            1int
        } else if t == closing {
            -1int
        } else {
            0
        }),
{
    reveal_with_fuel(closed_by, 2);
    let s = m.stack;
    assert(s.push(Frame::Group).drop_last() =~= s);
    assert(s.push(Frame::Args).drop_last() =~= s);
    assert(s.push(Frame::List).drop_last() =~= s);
    assert(s.push(Frame::Index).drop_last() =~= s);
    assert(s.push(Frame::Key).drop_last() =~= s);
    assert(s.push(Frame::Field).drop_last() =~= s);
    assert(s.push(Frame::Choice).drop_last() =~= s);
    if s.len() > 0 {
        let r = s.drop_last();
        assert(r.push(Frame::Value).drop_last() =~= r);
        assert(r.push(Frame::Key).drop_last() =~= r);
    }
}

/// Whether the innermost open bracket is the one that the mode speaks of.
pub open spec fn consistent(m: MachineModel) -> bool {
    &&& m.mode == Mode::ArgsStart ==> m.top() == Some(Frame::Args)
    &&& m.mode == Mode::ListStart || m.mode == Mode::ListNext || m.mode == Mode::ListEnd ==> m.top()
        == Some(Frame::List)
    &&& m.mode == Mode::KeyStart || m.mode == Mode::KeyNext ==> m.top() == Some(Frame::Key)
    &&& m.mode == Mode::BraceEnd ==> m.top() == Some(Frame::Key) || m.top() == Some(Frame::Field)
    &&& m.mode == Mode::FieldStart || m.mode == Mode::FieldNext || m.mode == Mode::FieldName
        || m.mode == Mode::FieldColon ==> m.top() == Some(Frame::Field)
}

/// The same for many tokens.
proof fn run_counts(m: MachineModel, tokens: Seq<Tok>, opening: Tok, closing: Tok)
    requires
        run(m, tokens) is Some,
        opening == Tok::LParen && closing == Tok::RParen || opening == Tok::LBracket && closing
            == Tok::RBracket || opening == Tok::LBrace && closing == Tok::RBrace,
        consistent(m),
    ensures
        closed_by(run(m, tokens)->0.stack, closing) == closed_by(m.stack, closing) + occurrences(
            tokens,
            opening,
        ) - occurrences(tokens, closing),
    decreases tokens.len(),
{
    if tokens.len() > 0 {
        step_counts(m, tokens[0], opening, closing);
        run_counts(m.step(tokens[0])->0, tokens.drop_first(), opening, closing);
    }
}

/// In an expression every bracket that is opened is closed.
pub proof fn brackets_are_balanced(tokens: Seq<Tok>)
    requires
        is_sentence(tokens),
    ensures
        occurrences(tokens, Tok::LParen) == occurrences(tokens, Tok::RParen),
        occurrences(tokens, Tok::LBracket) == occurrences(tokens, Tok::RBracket),
        occurrences(tokens, Tok::LBrace) == occurrences(tokens, Tok::RBrace),
{
    let start = MachineModel::start();
    run_counts(start, tokens, Tok::LParen, Tok::RParen);
    run_counts(start, tokens, Tok::LBracket, Tok::RBracket);
    run_counts(start, tokens, Tok::LBrace, Tok::RBrace);
}

/// An expression ends with an operand or a closed bracket, it starts with none of
/// the tokens that need something before them, and no two operands stand side by
/// side in it.
pub proof fn operators_need_operands(a: Seq<Tok>, t: Tok, u: Tok, b: Seq<Tok>)
    ensures
        is_sentence(a.push(t)) ==> t == Tok::Ident || t == Tok::Quoted || t == Tok::Number || t
            == Tok::Literal || t == Tok::RParen || t == Tok::RBracket || t == Tok::RBrace,
        t == Tok::Infix || t == Tok::Question || t == Tok::Colon || t == Tok::Comma || t
            == Tok::RParen || t == Tok::RBracket || t == Tok::RBrace ==> !is_sentence(
            seq![t] + b,
        ),
        (t == Tok::Ident || t == Tok::Number || t == Tok::Literal) && (u == Tok::Number || u
            == Tok::Literal) ==> !is_sentence(a + seq![t] + seq![u] + b),
        !is_sentence(Seq::empty()),
{
    let start = MachineModel::start();
    assert(a.push(t) =~= a + seq![t]);
    run_in_two(start, a, seq![t]);
    run_in_two(start, seq![t], b);
    one_token(start, t);
    run_in_two(start, a + seq![t], seq![u]);
    run_in_two(start, a + seq![t] + seq![u], b);
    if let Some(m) = run(start, a) {
        one_token(m, t);
        if let Some(next) = m.step(t) {
            one_token(next, u);
        }
    }
}

/// A name is one token, to its end, and so is a run of digits.
pub proof fn names_and_numbers_are_tokens(front: Seq<char>, w: Seq<char>, rest: Seq<char>)
    requires
        w.len() > 0,
        forall|i: int| 0 <= i < w.len() ==> ident_start(#[trigger] w[i]) || is_decimal(w[i]),
        rest.len() > 0 ==> !ident_start(rest[0]) && !is_decimal(rest[0]) && !is_quote(rest[0])
            && rest[0] != '.',
    ensures
        ident_start(w[0]) && w != "in"@ && w != "true"@ && w != "false"@ && w != "null"@ ==> token_at(
            front + w + rest,
            front.len() as int,
        ) == Some((Tok::Ident, (front.len() + w.len()) as int)),
        w == "in"@ ==> token_at(front + w + rest, front.len() as int) == Some(
            (Tok::Infix, (front.len() + w.len()) as int),
        ),
        w == "true"@ || w == "false"@ || w == "null"@ ==> token_at(
            front + w + rest,
            front.len() as int,
        ) == Some((Tok::Literal, (front.len() + w.len()) as int)),
        (forall|i: int| 0 <= i < w.len() ==> is_decimal(#[trigger] w[i])) ==> token_at(
            front + w + rest,
            front.len() as int,
        ) == Some((Tok::Number, (front.len() + w.len()) as int)),
{
    let s = front + w + rest;
    let i = front.len() as int;
    let e = i + w.len();
    assert forall|k: int| i <= k < e implies s[k] == w[k - i] by {}
    assert(rest.len() > 0 ==> s[e] == rest[0]);
    assert(s.subrange(i, e) =~= w);
    name_ends(s, i, e);
    reveal_strlit("in");
    reveal_strlit("true");
    reveal_strlit("false");
    reveal_strlit("null");
    assert(w[0] == s[i]);
    if w.len() > 1 {
        assert(w[1] == s[i + 1]);
    }
    if w.len() > 2 {
        assert(w[2] == s[i + 2]);
    }
    if forall|k: int| 0 <= k < w.len() ==> is_decimal(#[trigger] w[k]) {
        assert forall|k: int| i <= k < e implies is_decimal(#[trigger] s[k]) by {
            assert(is_decimal(w[k - i]));
        }
        assert(is_decimal(w[0]));
        digits_end(s, i, e);
        if w.len() > 1 {
            assert(is_decimal(w[1]));
        }
    }
}

/// A name goes on to its end.
proof fn name_ends(s: Seq<char>, i: int, e: int)
    requires
        0 <= i <= e <= s.len(),
        forall|k: int| i <= k < e ==> ident_start(#[trigger] s[k]) || is_decimal(s[k]),
        e < s.len() ==> !ident_start(s[e]) && !is_decimal(s[e]),
    ensures
        ident_end(s, i) == e,
    decreases e - i,
{
    if i < e {
        assert(ident_start(s[i]) || is_decimal(s[i]));
        name_ends(s, i + 1, e);
    }
}

/// A run of digits goes on to its end.
proof fn digits_end(s: Seq<char>, i: int, e: int)
    requires
        0 <= i <= e <= s.len(),
        forall|k: int| i <= k < e ==> is_decimal(#[trigger] s[k]),
        e < s.len() ==> !is_decimal(s[e]),
    ensures
        decimals_end(s, i) == e,
    decreases e - i,
{
    if i < e {
        assert(is_decimal(s[i]));
        digits_end(s, i + 1, e);
    }
}

/// A text in quotes is one literal, whatever stands in it, as long as that is no
/// quote of its kind, no backslash and no line end. One that is not closed is no
/// token. A comment goes on to the end of its line.
pub proof fn quoted_texts_are_tokens(
    front: Seq<char>,
    q: char,
    inner: Seq<char>,
    rest: Seq<char>,
)
    requires
        is_quote(q),
        inner.len() > 0,
        forall|i: int|
            0 <= i < inner.len() ==> #[trigger] inner[i] != q && inner[i] != '\\' && inner[i]
                != '\n' && inner[i] != '\r',
    ensures
        token_at(front + seq![q] + inner + seq![q] + rest, front.len() as int) == Some(
            (Tok::Literal, (front.len() + inner.len() + 2) as int),
        ),
        token_at(front + seq![q] + inner, front.len() as int) is None,
        token_at(front + seq!['/', '/'] + inner, front.len() as int) == Some(
            (Tok::Skip, (front.len() + inner.len() + 2) as int),
        ),
{
    let i = front.len() as int;
    let n = inner.len() as int;
    let s = front + seq![q] + inner + seq![q] + rest;
    assert(s[i] == q && s[i + 1] == inner[0] && s[i + 1 + n] == q);
    assert forall|k: int| i + 1 <= k < i + 1 + n implies #[trigger] s[k] != q && s[k] != '\\' && s[k]
        != '\n' && s[k] != '\r' by {
        assert(s[k] == inner[k - i - 1]);
    }
    quote_ends(s, i + 1, i + 1 + n, q);
    let open = front + seq![q] + inner;
    assert(open[i] == q && open[i + 1] == inner[0]);
    assert forall|k: int| i + 1 <= k < i + 1 + n implies #[trigger] open[k] != q && open[k] != '\\'
        && open[k] != '\n' && open[k] != '\r' by {
        assert(open[k] == inner[k - i - 1]);
    }
    quote_ends(open, i + 1, i + 1 + n, q);
    let comment = front + seq!['/', '/'] + inner;
    assert(comment[i] == '/' && comment[i + 1] == '/');
    assert forall|k: int| i + 2 <= k < i + 2 + n implies #[trigger] comment[k] != '\n' by {
        assert(comment[k] == inner[k - i - 2]);
    }
    comment_goes_on(comment, i + 2);
}

/// A text in quotes goes on to the closing quote.
proof fn quote_ends(s: Seq<char>, i: int, e: int, q: char)
    requires
        0 <= i <= e <= s.len(),
        forall|k: int|
            i <= k < e ==> #[trigger] s[k] != q && s[k] != '\\' && s[k] != '\n' && s[k] != '\r',
        e < s.len() ==> s[e] == q,
    ensures
        text_end(s, i, q, false, false) == (if e < s.len() {
            Some(e + 1)
        } else {
            None
        }),
    decreases e - i,
{
    if i < e {
        assert(s[i] != q);
        quote_ends(s, i + 1, e, q);
    }
}

/// A comment goes on where no line ends.
proof fn comment_goes_on(s: Seq<char>, i: int)
    requires
        0 <= i <= s.len(),
        forall|k: int| i <= k < s.len() ==> #[trigger] s[k] != '\n',
    ensures
        comment_end(s, i) == s.len(),
    decreases s.len() - i,
{
    if i < s.len() {
        comment_goes_on(s, i + 1);
    }
}

} // verus!
