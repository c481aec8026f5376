//! The parser: turns tokens into statements.
use super::value::{
    exprs_view, lemma_exprs_view_empty, lemma_exprs_view_push, opt_expr_view, Expression,
    LiteralValue, SpecExpr, SpecLiteral, SpecStatement, Statement,
};
use crate::lexer::token::{SpecTokenKind, Token, TokenKind};
use std::collections::VecDeque;
use std::rc::Rc;
use vstd::prelude::*;

verus! {

/// Why a statement could not be parsed.
#[derive(Debug)]
pub enum ParseError {
    /// The tokens ran out where a statement should begin.
    UnexpectedEndOfStatement,
    /// A token that cannot begin a statement.
    UnexpectedToken(TokenKind),
    /// The named inline function was followed by an empty statement, not by
    /// its right argument.
    ExpectedExpression(String),
    /// The tokens ran out inside a list.
    EndOfList,
    /// An empty statement inside a list.
    InvalidListValue,
}

/// The mathematical view of a parse error. `NoProgress` belongs to the
/// definition only: it marks a step that read no token, which never happens
/// (see `lemma_statement_progress`). The parse functions give an error together
/// with the tokens left when it arose.
pub enum SpecParseError {
    UnexpectedEndOfStatement,
    UnexpectedToken(SpecTokenKind),
    ExpectedExpression(Seq<char>),
    EndOfList,
    InvalidListValue,
    NoProgress,
}

impl View for ParseError {
    type V = SpecParseError;

    open spec fn view(&self) -> SpecParseError {
        match self {
            ParseError::UnexpectedEndOfStatement => SpecParseError::UnexpectedEndOfStatement,
            ParseError::UnexpectedToken(t) => SpecParseError::UnexpectedToken(t@),
            ParseError::ExpectedExpression(s) => SpecParseError::ExpectedExpression(s@),
            ParseError::EndOfList => SpecParseError::EndOfList,
            ParseError::InvalidListValue => SpecParseError::InvalidListValue,
        }
    }
}

/// The name of the builtin through which a symbol `@name` reaches the function
/// bound to `name`.
pub open spec fn symbol_bind_name() -> Seq<char> {
    "__get_symbol_bind__"@
}

/// The tokens of a sequence, by kind.
pub open spec fn token_kinds(ts: Seq<Token>) -> Seq<SpecTokenKind> {
    ts.map_values(|t: Token| t.kind@)
}

pub open spec fn opt_to_seq(o: Option<SpecExpr>) -> Seq<SpecExpr> {
    match o {
        Some(e) => seq![e],
        None => Seq::empty(),
    }
}

/// What a slot of a list holds once a comma closes it: its expression, or `Nil`
/// when it is empty.
pub open spec fn slot_item(o: Option<SpecExpr>) -> SpecExpr {
    match o {
        Some(e) => e,
        None => SpecExpr::Nil,
    }
}

/// Whether a token can begin a statement.
pub open spec fn starts_statement(t: SpecTokenKind) -> bool {
    ||| t is Identifier
    ||| t is OpenBracket
    ||| t is String
    ||| t is Numeric
    ||| t is OpenParen
    ||| t is Symbol
    ||| t is Semicolon
}

/// A parse of an expression as a parse of a statement.
pub open spec fn as_statement(
    r: Result<(SpecExpr, Seq<SpecTokenKind>), (SpecParseError, Seq<SpecTokenKind>)>,
) -> Result<(SpecStatement, Seq<SpecTokenKind>), (SpecParseError, Seq<SpecTokenKind>)> {
    match r {
        Ok((e, rest)) => Ok((SpecStatement::Expr(e), rest)),
        Err(err) => Err(err),
    }
}

/// One statement at the front of `ts`, and the tokens after it.
pub open spec fn spec_statement(ts: Seq<SpecTokenKind>) -> Result<
    (SpecStatement, Seq<SpecTokenKind>),
    (SpecParseError, Seq<SpecTokenKind>),
>
    decreases ts.len(), 1int,
{
    if ts.len() == 0 {
        Err((SpecParseError::UnexpectedEndOfStatement, ts))
    } else {
        let rest = ts.drop_first();
        match ts[0] {
            SpecTokenKind::Identifier(id) => as_statement(spec_join(rest, SpecExpr::Variable(id))),
            SpecTokenKind::OpenBracket => as_statement(
                spec_list(rest, SpecTokenKind::CloseBracket, false),
            ),
            SpecTokenKind::String(s) => as_statement(
                spec_join(rest, SpecExpr::Literal(SpecLiteral::String(s))),
            ),
            SpecTokenKind::Numeric(n) => as_statement(
                spec_join(rest, SpecExpr::Literal(SpecLiteral::Number(n))),
            ),
            SpecTokenKind::OpenParen => as_statement(
                spec_list(rest, SpecTokenKind::CloseParen, true),
            ),
            SpecTokenKind::Symbol(s) => as_statement(
                spec_join(
                    rest,
                    SpecExpr::Call(
                        Box::new(SpecExpr::Variable(symbol_bind_name())),
                        seq![SpecExpr::Literal(SpecLiteral::String(s))],
                    ),
                ),
            ),
            SpecTokenKind::Semicolon => Ok((SpecStatement::Empty, rest)),
            t => Err((SpecParseError::UnexpectedToken(t), rest)),
        }
    }
}

/// The calls that follow `ex` at the front of `ts`: an identifier makes an inline
/// call with `ex` as its left argument, an opening parenthesis a call of `ex`
/// with the list that follows; anything else ends the expression.
pub open spec fn spec_join(ts: Seq<SpecTokenKind>, ex: SpecExpr) -> Result<
    (SpecExpr, Seq<SpecTokenKind>),
    (SpecParseError, Seq<SpecTokenKind>),
>
    decreases ts.len(), 0int,
{
    if ts.len() == 0 {
        Ok((ex, ts))
    } else {
        match ts[0] {
            SpecTokenKind::Identifier(id) => match spec_inline_call(ts.drop_first(), id, ex) {
                Ok((e2, r2)) => if r2.len() < ts.len() {
                    spec_join(r2, e2)
                } else {
                    Err((SpecParseError::NoProgress, ts))
                },
                Err(err) => Err(err),
            },
            SpecTokenKind::OpenParen => match spec_paren_call(ts.drop_first(), ex) {
                Ok((e2, r2)) => if r2.len() < ts.len() {
                    spec_join(r2, e2)
                } else {
                    Err((SpecParseError::NoProgress, ts))
                },
                Err(err) => Err(err),
            },
            _ => Ok((ex, ts)),
        }
    }
}

/// The inline call `lp ident <statement>`: the statement at the front of `ts` is
/// the right argument, and the calls that follow apply to the call.
pub open spec fn spec_inline_call(ts: Seq<SpecTokenKind>, ident: Seq<char>, lp: SpecExpr) -> Result<
    (SpecExpr, Seq<SpecTokenKind>),
    (SpecParseError, Seq<SpecTokenKind>),
>
    decreases ts.len(), 2int,
{
    match spec_statement(ts) {
        Ok((SpecStatement::Expr(e), r2)) => if r2.len() <= ts.len() {
            spec_join(r2, SpecExpr::Call(Box::new(SpecExpr::Variable(ident)), seq![lp, e]))
        } else {
            Err((SpecParseError::NoProgress, ts))
        },
        Ok((SpecStatement::Empty, r2)) => Err((SpecParseError::ExpectedExpression(ident), r2)),
        Err(err) => Err(err),
    }
}

/// The call `lp(...)` whose opening parenthesis was read: the list up to the
/// closing parenthesis gives the arguments, and the calls that follow apply to
/// the call.
pub open spec fn spec_paren_call(ts: Seq<SpecTokenKind>, lp: SpecExpr) -> Result<
    (SpecExpr, Seq<SpecTokenKind>),
    (SpecParseError, Seq<SpecTokenKind>),
>
    decreases ts.len(), 3int,
{
    match spec_items(ts, SpecTokenKind::CloseParen, None, Seq::empty()) {
        Ok((items, r2)) => if r2.len() <= ts.len() {
            spec_join(r2, SpecExpr::Call(Box::new(lp), items))
        } else {
            Err((SpecParseError::NoProgress, ts))
        },
        Err(err) => Err(err),
    }
}

/// The items of a list up to `end`, which is read too. Commas part the list
/// into slots; a slot with no expression in it is an empty slot (`Nil`), so
/// `(,16)` holds `Nil` and `16`, and `(a,)` holds `a` and `Nil`; `()` holds
/// nothing. `last` is the slot being read (`None` before the first comma when
/// it is still empty), `acc` the slots handed on.
pub open spec fn spec_items(
    ts: Seq<SpecTokenKind>,
    end: SpecTokenKind,
    last: Option<SpecExpr>,
    acc: Seq<SpecExpr>,
) -> Result<(Seq<SpecExpr>, Seq<SpecTokenKind>), (SpecParseError, Seq<SpecTokenKind>)>
    decreases ts.len(), 2int,
{
    if ts.len() == 0 {
        Err((SpecParseError::EndOfList, ts))
    } else if ts[0] == end {
        Ok((acc + opt_to_seq(last), ts.drop_first()))
    } else if ts[0] is Comma {
        spec_items(ts.drop_first(), end, Some(SpecExpr::Nil), acc + seq![slot_item(last)])
    } else {
        match spec_statement(ts) {
            Ok((SpecStatement::Expr(e), r2)) => if r2.len() < ts.len() {
                spec_items(r2, end, Some(e), acc)
            } else {
                Err((SpecParseError::NoProgress, ts))
            },
            Ok((SpecStatement::Empty, r2)) => Err((SpecParseError::InvalidListValue, r2)),
            Err(err) => Err(err),
        }
    }
}

/// A bracketed array (`paren` false) or parameter set (`paren` true) whose
/// opening bracket was read, with the calls that follow it.
pub open spec fn spec_list(ts: Seq<SpecTokenKind>, end: SpecTokenKind, paren: bool) -> Result<
    (SpecExpr, Seq<SpecTokenKind>),
    (SpecParseError, Seq<SpecTokenKind>),
>
    decreases ts.len(), 3int,
{
    match spec_items(ts, end, None, Seq::empty()) {
        Ok((items, r2)) => if r2.len() <= ts.len() {
            spec_join(
                r2,
                if paren {
                    SpecExpr::ParenList(items)
                } else {
                    SpecExpr::Array(items)
                },
            )
        } else {
            Err((SpecParseError::NoProgress, ts))
        },
        Err(err) => Err(err),
    }
}

/// What a parse result promises: no step without progress, and the tokens left
/// are no more than `bound`.
pub open spec fn parse_ok_within<T>(
    r: Result<(T, Seq<SpecTokenKind>), (SpecParseError, Seq<SpecTokenKind>)>,
    bound: int,
) -> bool {
    &&& !(r matches Err((SpecParseError::NoProgress, _)))
    &&& r matches Ok((_, rest)) ==> rest.len() <= bound
}

/// Law: a statement always reads at least one token, and no parse of a
/// statement ever stops for want of progress.
pub proof fn lemma_statement_progress(ts: Seq<SpecTokenKind>)
    ensures
        parse_ok_within(spec_statement(ts), ts.len() - 1),
    decreases ts.len(), 1int,
{
    if ts.len() > 0 {
        let rest = ts.drop_first();
        match ts[0] {
            SpecTokenKind::Identifier(id) => lemma_join_progress(rest, SpecExpr::Variable(id)),
            SpecTokenKind::OpenBracket => lemma_list_progress(rest, SpecTokenKind::CloseBracket, false),
            SpecTokenKind::String(s) => lemma_join_progress(
                rest,
                SpecExpr::Literal(SpecLiteral::String(s)),
            ),
            SpecTokenKind::Numeric(n) => lemma_join_progress(
                rest,
                SpecExpr::Literal(SpecLiteral::Number(n)),
            ),
            SpecTokenKind::OpenParen => lemma_list_progress(rest, SpecTokenKind::CloseParen, true),
            SpecTokenKind::Symbol(s) => lemma_join_progress(
                rest,
                SpecExpr::Call(
                    Box::new(SpecExpr::Variable(symbol_bind_name())),
                    seq![SpecExpr::Literal(SpecLiteral::String(s))],
                ),
            ),
            _ => {},
        }
    }
}

/// The calls that follow an expression never make the parse go back.
pub proof fn lemma_join_progress(ts: Seq<SpecTokenKind>, ex: SpecExpr)
    ensures
        parse_ok_within(spec_join(ts, ex), ts.len() as int),
    decreases ts.len(), 0int,
{
    if ts.len() > 0 {
        match ts[0] {
            SpecTokenKind::Identifier(id) => {
                lemma_inline_progress(ts.drop_first(), id, ex);
                if let Ok((e2, r2)) = spec_inline_call(ts.drop_first(), id, ex) {
                    lemma_join_progress(r2, e2);
                }
            },
            SpecTokenKind::OpenParen => {
                lemma_paren_call_progress(ts.drop_first(), ex);
                if let Ok((e2, r2)) = spec_paren_call(ts.drop_first(), ex) {
                    lemma_join_progress(r2, e2);
                }
            },
            _ => {},
        }
    }
}

/// An inline call reads at least its right argument.
pub proof fn lemma_inline_progress(ts: Seq<SpecTokenKind>, ident: Seq<char>, lp: SpecExpr)
    ensures
        parse_ok_within(spec_inline_call(ts, ident, lp), ts.len() - 1),
    decreases ts.len(), 2int,
{
    lemma_statement_progress(ts);
    if let Ok((SpecStatement::Expr(e), r2)) = spec_statement(ts) {
        lemma_join_progress(r2, SpecExpr::Call(Box::new(SpecExpr::Variable(ident)), seq![lp, e]));
    }
}

/// A call with a list reads at least the closing parenthesis.
pub proof fn lemma_paren_call_progress(ts: Seq<SpecTokenKind>, lp: SpecExpr)
    ensures
        parse_ok_within(spec_paren_call(ts, lp), ts.len() - 1),
    decreases ts.len(), 3int,
{
    lemma_items_progress(ts, SpecTokenKind::CloseParen, None, Seq::empty());
    if let Ok((items, r2)) = spec_items(ts, SpecTokenKind::CloseParen, None, Seq::empty()) {
        lemma_join_progress(r2, SpecExpr::Call(Box::new(lp), items));
    }
}

/// The items of a list read at least the closing bracket.
pub proof fn lemma_items_progress(
    ts: Seq<SpecTokenKind>,
    end: SpecTokenKind,
    last: Option<SpecExpr>,
    acc: Seq<SpecExpr>,
)
    ensures
        parse_ok_within(spec_items(ts, end, last, acc), ts.len() - 1),
    decreases ts.len(), 2int,
{
    if ts.len() > 0 && ts[0] != end {
        if ts[0] is Comma {
            lemma_items_progress(ts.drop_first(), end, Some(SpecExpr::Nil), acc + seq![slot_item(last)]);
        } else {
            lemma_statement_progress(ts);
            if let Ok((SpecStatement::Expr(e), r2)) = spec_statement(ts) {
                lemma_items_progress(r2, end, Some(e), acc);
            }
        }
    }
}

/// A bracketed list reads at least its closing bracket.
pub proof fn lemma_list_progress(ts: Seq<SpecTokenKind>, end: SpecTokenKind, paren: bool)
    ensures
        parse_ok_within(spec_list(ts, end, paren), ts.len() - 1),
    decreases ts.len(), 3int,
{
    lemma_items_progress(ts, end, None, Seq::empty());
    if let Ok((items, r2)) = spec_items(ts, end, None, Seq::empty()) {
        lemma_join_progress(
            r2,
            if paren {
                SpecExpr::ParenList(items)
            } else {
                SpecExpr::Array(items)
            },
        );
    }
}

/// The expression a single token stands for when it is a whole operand: a
/// variable, a string or a number.
pub open spec fn operand_expr(t: SpecTokenKind) -> Option<SpecExpr> {
    match t {
        SpecTokenKind::Identifier(s) => Some(SpecExpr::Variable(s)),
        SpecTokenKind::String(s) => Some(SpecExpr::Literal(SpecLiteral::String(s))),
        SpecTokenKind::Numeric(n) => Some(SpecExpr::Literal(SpecLiteral::Number(n))),
        _ => None,
    }
}

/// The tokens end an expression: none left, or one that neither names an
/// inline function nor opens an argument list.
pub open spec fn ends_expression(ts: Seq<SpecTokenKind>) -> bool {
    ts.len() == 0 || !(ts[0] is Identifier || ts[0] is OpenParen)
}

proof fn lemma_join_stops(ts: Seq<SpecTokenKind>, ex: SpecExpr)
    requires
        ends_expression(ts),
    ensures
        spec_join(ts, ex) == Ok::<(SpecExpr, Seq<SpecTokenKind>), (SpecParseError, Seq<SpecTokenKind>)>((ex, ts)),
{
}

proof fn lemma_operand_statement(t: SpecTokenKind, rest: Seq<SpecTokenKind>)
    requires
        operand_expr(t) is Some,
        ends_expression(rest),
    ensures
        spec_statement(seq![t] + rest) == Ok::<(SpecStatement, Seq<SpecTokenKind>), (SpecParseError, Seq<SpecTokenKind>)>(
            (SpecStatement::Expr(operand_expr(t).unwrap()), rest),
        ),
{
    let ts = seq![t] + rest;
    assert(ts.drop_first() =~= rest);
    assert(ts[0] == t);
    lemma_join_stops(rest, operand_expr(t).unwrap());
}

/// Law: an inline call `a f b` parses as the call `f(a, b)`, for operands
/// that are variables, strings or numbers, when the expression ends after `b`.
pub proof fn lemma_inline_call_is_call(
    a: SpecTokenKind,
    f: Seq<char>,
    b: SpecTokenKind,
    rest: Seq<SpecTokenKind>,
)
    requires
        operand_expr(a) is Some,
        operand_expr(b) is Some,
        ends_expression(rest),
    ensures
        spec_statement(seq![a, SpecTokenKind::Identifier(f), b] + rest) == spec_statement(
            seq![
                SpecTokenKind::Identifier(f),
                SpecTokenKind::OpenParen,
                a,
                SpecTokenKind::Comma,
                b,
                SpecTokenKind::CloseParen,
            ] + rest,
        ),
        spec_statement(seq![a, SpecTokenKind::Identifier(f), b] + rest) == Ok::<
            (SpecStatement, Seq<SpecTokenKind>),
            (SpecParseError, Seq<SpecTokenKind>),
        >(
            (
                SpecStatement::Expr(
                    SpecExpr::Call(
                        Box::new(SpecExpr::Variable(f)),
                        seq![operand_expr(a).unwrap(), operand_expr(b).unwrap()],
                    ),
                ),
                rest,
            ),
        ),
{
    let ea = operand_expr(a).unwrap();
    let eb = operand_expr(b).unwrap();
    let call = SpecExpr::Call(Box::new(SpecExpr::Variable(f)), seq![ea, eb]);
    let ok_call = Ok::<(SpecExpr, Seq<SpecTokenKind>), (SpecParseError, Seq<SpecTokenKind>)>((call, rest));
    lemma_join_stops(rest, call);
    // The inline form.
    let ts = seq![a, SpecTokenKind::Identifier(f), b] + rest;
    let ts1 = seq![SpecTokenKind::Identifier(f), b] + rest;
    let ts2 = seq![b] + rest;
    assert(ts.drop_first() =~= ts1);
    assert(ts1.drop_first() =~= ts2);
    lemma_operand_statement(b, rest);
    assert(spec_inline_call(ts2, f, ea) == ok_call);
    assert(spec_join(ts1, ea) == ok_call);
    assert(spec_statement(ts) == as_statement(ok_call));
    // The call form.
    let us = seq![
        SpecTokenKind::Identifier(f),
        SpecTokenKind::OpenParen,
        a,
        SpecTokenKind::Comma,
        b,
        SpecTokenKind::CloseParen,
    ] + rest;
    let us1 = seq![SpecTokenKind::OpenParen, a, SpecTokenKind::Comma, b, SpecTokenKind::CloseParen]
        + rest;
    let us2 = seq![a, SpecTokenKind::Comma, b, SpecTokenKind::CloseParen] + rest;
    let us3 = seq![SpecTokenKind::Comma, b, SpecTokenKind::CloseParen] + rest;
    let us4 = seq![b, SpecTokenKind::CloseParen] + rest;
    let us5 = seq![SpecTokenKind::CloseParen] + rest;
    assert(us.drop_first() =~= us1);
    assert(us1.drop_first() =~= us2);
    assert(us2.drop_first() =~= us3);
    assert(us3.drop_first() =~= us4);
    assert(us4.drop_first() =~= us5);
    assert(us5.drop_first() =~= rest);
    lemma_join_stops(us3, ea);
    lemma_join_stops(us5, eb);
    assert(spec_statement(us2) == Ok::<(SpecStatement, Seq<SpecTokenKind>), (SpecParseError, Seq<SpecTokenKind>)>(
        (SpecStatement::Expr(ea), us3),
    ));
    assert(spec_statement(us4) == Ok::<(SpecStatement, Seq<SpecTokenKind>), (SpecParseError, Seq<SpecTokenKind>)>(
        (SpecStatement::Expr(eb), us5),
    ));
    let e = SpecTokenKind::CloseParen;
    assert(spec_items(us5, e, Some(eb), seq![ea]) == Ok::<
        (Seq<SpecExpr>, Seq<SpecTokenKind>),
        (SpecParseError, Seq<SpecTokenKind>),
    >((seq![ea, eb], rest))) by {
        assert(seq![ea] + opt_to_seq(Some(eb)) =~= seq![ea, eb]);
    }
    assert(spec_items(us4, e, Some(SpecExpr::Nil), seq![ea]) == spec_items(
        us5,
        e,
        Some(eb),
        seq![ea],
    ));
    assert(spec_items(us3, e, Some(ea), Seq::empty()) == spec_items(
        us4,
        e,
        Some(SpecExpr::Nil),
        seq![ea],
    )) by {
        assert(Seq::<SpecExpr>::empty() + opt_to_seq(Some(ea)) =~= seq![ea]);
    }
    assert(spec_items(us2, e, None, Seq::empty()) == spec_items(us3, e, Some(ea), Seq::empty()));
    assert(spec_paren_call(us2, SpecExpr::Variable(f)) == ok_call);
    assert(spec_join(us1, SpecExpr::Variable(f)) == ok_call);
}

/// The calls that follow an expression are all taken: what is left after them
/// ends the expression.
proof fn lemma_join_ends(ts: Seq<SpecTokenKind>, ex: SpecExpr)
    ensures
        spec_join(ts, ex) matches Ok((_, r)) ==> ends_expression(r),
    decreases ts.len(),
{
    if ts.len() > 0 {
        match ts[0] {
            SpecTokenKind::Identifier(id) => {
                if let Ok((e2, r2)) = spec_inline_call(ts.drop_first(), id, ex) {
                    if r2.len() < ts.len() {
                        lemma_join_ends(r2, e2);
                    }
                }
            },
            SpecTokenKind::OpenParen => {
                if let Ok((e2, r2)) = spec_paren_call(ts.drop_first(), ex) {
                    if r2.len() < ts.len() {
                        lemma_join_ends(r2, e2);
                    }
                }
            },
            _ => {},
        }
    }
}

/// A statement that is an expression takes every call that follows it.
proof fn lemma_statement_ends(ts: Seq<SpecTokenKind>)
    ensures
        spec_statement(ts) matches Ok((SpecStatement::Expr(_), r)) ==> ends_expression(r),
{
    if ts.len() > 0 {
        let rest = ts.drop_first();
        match ts[0] {
            SpecTokenKind::Identifier(id) => lemma_join_ends(rest, SpecExpr::Variable(id)),
            SpecTokenKind::String(s) => lemma_join_ends(
                rest,
                SpecExpr::Literal(SpecLiteral::String(s)),
            ),
            SpecTokenKind::Numeric(n) => lemma_join_ends(
                rest,
                SpecExpr::Literal(SpecLiteral::Number(n)),
            ),
            SpecTokenKind::Symbol(s) => lemma_join_ends(
                rest,
                SpecExpr::Call(
                    Box::new(SpecExpr::Variable(symbol_bind_name())),
                    seq![SpecExpr::Literal(SpecLiteral::String(s))],
                ),
            ),
            SpecTokenKind::OpenBracket => {
                if let Ok((items, r2)) = spec_items(rest, SpecTokenKind::CloseBracket, None, Seq::empty()) {
                    lemma_join_ends(r2, SpecExpr::Array(items));
                }
            },
            SpecTokenKind::OpenParen => {
                if let Ok((items, r2)) = spec_items(rest, SpecTokenKind::CloseParen, None, Seq::empty()) {
                    lemma_join_ends(r2, SpecExpr::ParenList(items));
                }
            },
            _ => {},
        }
    }
}

/// Law (inline calls): in `a f ...`, with `a` a variable, string or number,
/// the right argument of `f` is the whole statement that follows the name,
/// with every call in it: `a f g(b)` is `f(a, g(b))`. The parse goes on from
/// where that statement ends; an empty statement there, or an error in it,
/// makes the inline call fail.
pub proof fn lemma_inline_takes_statement(a: SpecTokenKind, f: Seq<char>, ts: Seq<SpecTokenKind>)
    requires
        operand_expr(a) is Some,
    ensures
        spec_statement(seq![a, SpecTokenKind::Identifier(f)] + ts) == match spec_statement(ts) {
            Ok((SpecStatement::Expr(e), r)) => Ok::<
                (SpecStatement, Seq<SpecTokenKind>),
                (SpecParseError, Seq<SpecTokenKind>),
            >(
                (
                    SpecStatement::Expr(
                        SpecExpr::Call(
                            Box::new(SpecExpr::Variable(f)),
                            seq![operand_expr(a).unwrap(), e],
                        ),
                    ),
                    r,
                ),
            ),
            Ok((SpecStatement::Empty, r)) => Err((SpecParseError::ExpectedExpression(f), r)),
            Err(err) => Err(err),
        },
{
    let ea = operand_expr(a).unwrap();
    let t = seq![a, SpecTokenKind::Identifier(f)] + ts;
    let t1 = seq![SpecTokenKind::Identifier(f)] + ts;
    assert(t.drop_first() =~= t1);
    assert(t1.drop_first() =~= ts);
    assert(t[0] == a);
    assert(t1[0] == SpecTokenKind::Identifier(f));
    lemma_statement_progress(ts);
    lemma_statement_ends(ts);
    if let Ok((SpecStatement::Expr(e), r)) = spec_statement(ts) {
        let call = SpecExpr::Call(Box::new(SpecExpr::Variable(f)), seq![ea, e]);
        lemma_join_stops(r, call);
        assert(spec_inline_call(ts, f, ea) == Ok::<
            (SpecExpr, Seq<SpecTokenKind>),
            (SpecParseError, Seq<SpecTokenKind>),
        >((call, r)));
        assert(spec_join(t1, ea) == Ok::<
            (SpecExpr, Seq<SpecTokenKind>),
            (SpecParseError, Seq<SpecTokenKind>),
        >((call, r)));
    }
}

/// Whether two token kinds are equal.
fn same_kind(a: &TokenKind, b: &TokenKind) -> (r: bool)
    ensures
        r == (a@ == b@),
{
    match (a, b) {
        (TokenKind::Unknown(x), TokenKind::Unknown(y)) => *x == *y,
        (TokenKind::Whitespace, TokenKind::Whitespace) => true,
        (TokenKind::Identifier(x), TokenKind::Identifier(y)) => *x == *y,
        (TokenKind::Symbol(x), TokenKind::Symbol(y)) => *x == *y,
        (TokenKind::Numeric(x), TokenKind::Numeric(y)) => *x == *y,
        (TokenKind::String(x), TokenKind::String(y)) => *x == *y,
        (TokenKind::Colon, TokenKind::Colon) => true,
        (TokenKind::At, TokenKind::At) => true,
        (TokenKind::Equals, TokenKind::Equals) => true,
        (TokenKind::Semicolon, TokenKind::Semicolon) => true,
        (TokenKind::Plus, TokenKind::Plus) => true,
        (TokenKind::Dot, TokenKind::Dot) => true,
        (TokenKind::Comma, TokenKind::Comma) => true,
        (TokenKind::OpenParen, TokenKind::OpenParen) => true,
        (TokenKind::CloseParen, TokenKind::CloseParen) => true,
        (TokenKind::OpenBracket, TokenKind::OpenBracket) => true,
        (TokenKind::CloseBracket, TokenKind::CloseBracket) => true,
        _ => false,
    }
}

/// The call `callie(args)`.
fn call_expr(callie: Expression, args: Vec<Expression>) -> (e: Expression)
    ensures
        e@ == SpecExpr::Call(Box::new(callie@), exprs_view(args@)),
{
    Expression::Call { callie: Box::new(callie), args }
}

/// The call `callie(a, b)`.
fn call2(callie: Expression, a: Expression, b: Expression) -> (e: Expression)
    ensures
        e@ == SpecExpr::Call(Box::new(callie@), seq![a@, b@]),
{
    let ghost va = a@;
    let ghost vb = b@;
    let args = vec![a, b];
    assert(exprs_view(args@) =~= seq![va, vb]);
    call_expr(callie, args)
}

/// Reads statements from a sequence of tokens.
pub struct Parser {
    tokens: VecDeque<Token>,
}

impl Parser {
    /// The kinds of the tokens not yet read.
    pub closed spec fn remaining(&self) -> Seq<SpecTokenKind> {
        token_kinds(self.tokens@)
    }

    /// A parser over `tokens`.
    pub fn new(tokens: Vec<Token>) -> (p: Self)
        ensures
            p.remaining() == token_kinds(tokens@),
    {
        let ghost all = tokens@;
        let mut tokens = tokens;
        let mut dq: VecDeque<Token> = VecDeque::new();
        while tokens.len() > 0
            invariant
                all == tokens@ + dq@,
            decreases tokens.len(),
        {
            let t = tokens.pop().unwrap();
            dq.push_front(t);
            assert(all =~= tokens@ + dq@);
        }
        assert(dq@ =~= all);
        Parser { tokens: dq }
    }

    /// The next statement, or `None` once every token has been read.
    pub fn next(&mut self) -> (r: Option<Result<Statement, ParseError>>)
        ensures
            old(self).remaining().len() == 0 ==> r is None && final(self).remaining() == old(self).remaining(),
            old(self).remaining().len() > 0 ==> match spec_statement(old(self).remaining()) {
                Ok((st, rest)) => r matches Some(Ok(s)) && s@ == st && final(self).remaining()
                    == rest,
                Err((e, rest)) => r matches Some(Err(err)) && err@ == e && final(self).remaining()
                    == rest,
            },
            r is Some ==> final(self).remaining().len() < old(self).remaining().len(),
            old(self).remaining().len() > 0 && !starts_statement(old(self).remaining()[0])
                ==> final(self).remaining() == old(self).remaining().drop_first(),
    {
        if self.is_eof() {
            None
        } else {
            Some(self.next_statement())
        }
    }

    /// Reads one statement.
    pub fn next_statement(&mut self) -> (r: Result<Statement, ParseError>)
        ensures
            match spec_statement(old(self).remaining()) {
                Ok((st, rest)) => r matches Ok(s) && s@ == st && final(self).remaining() == rest,
                Err((e, rest)) => r matches Err(err) && err@ == e && final(self).remaining() == rest,
            },
            old(self).remaining().len() == 0 ==> final(self).remaining() == old(self).remaining(),
            old(self).remaining().len() > 0 ==> final(self).remaining().len()
                < old(self).remaining().len(),
            old(self).remaining().len() > 0 && !starts_statement(old(self).remaining()[0])
                ==> final(self).remaining() == old(self).remaining().drop_first(),
        decreases old(self).remaining().len(), 0int,
    {
        let ghost ts = self.remaining();
        let tk = match self.consume() {
            Some(t) => t,
            None => {
                return Err(ParseError::UnexpectedEndOfStatement);
            },
        };
        assert(self.remaining() =~= ts.drop_first());
        match tk {
            TokenKind::Identifier(id) => self.ident(id),
            TokenKind::OpenBracket => match self.array() {
                Ok(e) => Ok(Statement::Expr(e)),
                Err(e) => Err(e),
            },
            TokenKind::String(s) => {
                let ex = Expression::Literal(LiteralValue::String(Rc::new(s)));
                match self.join_expr_modifiers(ex) {
                    Ok(e) => Ok(Statement::Expr(e)),
                    Err(e) => Err(e),
                }
            },
            TokenKind::Numeric(n) => {
                let ex = Expression::Literal(LiteralValue::Number(n));
                match self.join_expr_modifiers(ex) {
                    Ok(e) => Ok(Statement::Expr(e)),
                    Err(e) => Err(e),
                }
            },
            TokenKind::OpenParen => match self.paren_list() {
                Ok(e) => Ok(Statement::Expr(e)),
                Err(e) => Err(e),
            },
            TokenKind::Symbol(s) => {
                let name = "__get_symbol_bind__".to_owned();
                let lit = Expression::Literal(LiteralValue::String(Rc::new(s)));
                let ghost vl = lit@;
                let args = vec![lit];
                assert(exprs_view(args@) =~= seq![vl]);
                let c = call_expr(Expression::Variable(name), args);
                match self.join_expr_modifiers(c) {
                    Ok(e) => Ok(Statement::Expr(e)),
                    Err(e) => Err(e),
                }
            },
            TokenKind::Semicolon => Ok(Statement::Empty),
            t => Err(ParseError::UnexpectedToken(t)),
        }
    }

    /// The kind of the next token, if any.
    fn peek(&self) -> (r: Option<&TokenKind>)
        ensures
            self.remaining().len() == 0 ==> r is None,
            self.remaining().len() > 0 ==> (r matches Some(k) && k@ == self.remaining()[0]),
    {
        if self.tokens.len() > 0 {
            Some(&self.tokens[0].kind)
        } else {
            None
        }
    }

    /// Whether every token has been read.
    fn is_eof(&self) -> (r: bool)
        ensures
            r == (self.remaining().len() == 0),
    {
        self.tokens.len() == 0
    }

    /// Reads the next token, giving its kind.
    fn consume(&mut self) -> (r: Option<TokenKind>)
        ensures
            old(self).remaining().len() == 0 ==> r is None && final(self).remaining() == old(self).remaining(),
            old(self).remaining().len() > 0 ==> (r matches Some(k) && k@ == old(self).remaining()[0]
                && final(self).remaining() == old(self).remaining().drop_first()),
    {
        let ghost before = self.tokens@;
        match self.tokens.pop_front() {
            Some(t) => {
                assert(token_kinds(self.tokens@) =~= token_kinds(before).drop_first());
                Some(t.kind)
            },
            None => None,
        }
    }

    /// `lp ident <statement>`: the inline call whose function name was just read.
    fn inline_fn_call(&mut self, ident: String, lp: Expression) -> (r: Result<
        Expression,
        ParseError,
    >)
        ensures
            match spec_inline_call(old(self).remaining(), ident@, lp@) {
                Ok((e, rest)) => r matches Ok(x) && x@ == e && final(self).remaining() == rest,
                Err((e, rest)) => r matches Err(err) && err@ == e && final(self).remaining() == rest,
            },
            final(self).remaining().len() <= old(self).remaining().len(),
        decreases old(self).remaining().len(), 1int,
    {
        match self.next_statement() {
            Ok(Statement::Expr(e)) => {
                let fn_ex = call2(Expression::Variable(ident), lp, e);
                self.join_expr_modifiers(fn_ex)
            },
            Ok(Statement::Empty) => Err(ParseError::ExpectedExpression(ident)),
            Err(err) => Err(err),
        }
    }

    /// `lp(...)`: the call whose opening parenthesis was just read.
    fn paren_list_fn_call(&mut self, lp: Expression) -> (r: Result<Expression, ParseError>)
        ensures
            match spec_paren_call(old(self).remaining(), lp@) {
                Ok((e, rest)) => r matches Ok(x) && x@ == e && final(self).remaining() == rest,
                Err((e, rest)) => r matches Err(err) && err@ == e && final(self).remaining() == rest,
            },
            final(self).remaining().len() <= old(self).remaining().len(),
        decreases old(self).remaining().len(), 2int,
    {
        let close = TokenKind::CloseParen;
        match self.comma_seprated_list(&close) {
            Ok(exprs) => {
                let fn_ex = call_expr(lp, exprs);
                self.join_expr_modifiers(fn_ex)
            },
            Err(e) => Err(e),
        }
    }

    /// Applies to `ex` the calls that follow it.
    fn join_expr_modifiers(&mut self, ex: Expression) -> (r: Result<Expression, ParseError>)
        ensures
            match spec_join(old(self).remaining(), ex@) {
                Ok((e, rest)) => r matches Ok(x) && x@ == e && final(self).remaining() == rest,
                Err((e, rest)) => r matches Err(err) && err@ == e && final(self).remaining() == rest,
            },
            final(self).remaining().len() <= old(self).remaining().len(),
        decreases old(self).remaining().len(), 0int,
    {
        let ghost ts0 = self.remaining();
        let ghost ex0 = ex@;
        let mut cur = ex;
        loop
            invariant_except_break
                spec_join(ts0, ex0) == spec_join(self.remaining(), cur@),
                self.remaining().len() <= ts0.len(),
            invariant
                ts0 == old(self).remaining(),
                ex0 == ex@,
            ensures
                spec_join(ts0, ex0) == Ok::<(SpecExpr, Seq<SpecTokenKind>), (SpecParseError, Seq<SpecTokenKind>)>(
                    (cur@, self.remaining()),
                ),
                self.remaining().len() <= ts0.len(),
            decreases self.remaining().len(),
        {
            let ghost ts = self.remaining();
            let kind: u8 = match self.peek() {
                None => 0,
                Some(TokenKind::Identifier(_)) => 1,
                Some(TokenKind::OpenParen) => 2,
                Some(_) => 0,
            };
            if kind == 1 {
                let ident = match self.consume() {
                    Some(TokenKind::Identifier(s)) => s,
                    _ => {
                        assert(false);
                        break ;
                    },
                };
                assert(self.remaining() =~= ts.drop_first());
                match self.inline_fn_call(ident, cur) {
                    Ok(e) => {
                        cur = e;
                    },
                    Err(err) => {
                        return Err(err);
                    },
                }
            } else if kind == 2 {
                self.consume();
                assert(self.remaining() =~= ts.drop_first());
                match self.paren_list_fn_call(cur) {
                    Ok(e) => {
                        cur = e;
                    },
                    Err(err) => {
                        return Err(err);
                    },
                }
            } else {
                break ;
            }
        }
        Ok(cur)
    }

    /// An expression that begins with the identifier `id`, just read.
    fn ident(&mut self, id: String) -> (r: Result<Statement, ParseError>)
        ensures
            match as_statement(spec_join(old(self).remaining(), SpecExpr::Variable(id@))) {
                Ok((st, rest)) => r matches Ok(s) && s@ == st && final(self).remaining() == rest,
                Err((e, rest)) => r matches Err(err) && err@ == e && final(self).remaining() == rest,
            },
            final(self).remaining().len() <= old(self).remaining().len(),
        decreases old(self).remaining().len(), 1int,
    {
        match self.join_expr_modifiers(Expression::Variable(id)) {
            Ok(ex) => Ok(Statement::Expr(ex)),
            Err(e) => Err(e),
        }
    }

    /// The items of a list up to `terminator`, which is read too.
    fn comma_seprated_list(&mut self, terminator: &TokenKind) -> (r: Result<
        Vec<Expression>,
        ParseError,
    >)
        ensures
            match spec_items(old(self).remaining(), terminator@, None, Seq::empty()) {
                Ok((items, rest)) => r matches Ok(v) && exprs_view(v@) == items && final(self).remaining() == rest,
                Err((e, rest)) => r matches Err(err) && err@ == e && final(self).remaining() == rest,
            },
            r is Ok ==> final(self).remaining().len() < old(self).remaining().len(),
            final(self).remaining().len() <= old(self).remaining().len(),
        decreases old(self).remaining().len(), 1int,
    {
        let ghost ts0 = self.remaining();
        let ghost end = terminator@;
        let mut exprs: Vec<Expression> = Vec::new();
        let mut last: Option<Expression> = None;
        proof {
            lemma_exprs_view_empty();
        }
        loop
            invariant_except_break
                spec_items(ts0, end, None, Seq::empty()) == spec_items(
                    self.remaining(),
                    end,
                    opt_expr_view(last),
                    exprs_view(exprs@),
                ),
                self.remaining().len() <= ts0.len(),
            invariant
                end == terminator@,
                ts0 == old(self).remaining(),
            ensures
                spec_items(ts0, end, None, Seq::empty()) == Ok::<
                    (Seq<SpecExpr>, Seq<SpecTokenKind>),
                    (SpecParseError, Seq<SpecTokenKind>),
                >((exprs_view(exprs@), self.remaining())),
                self.remaining().len() < ts0.len(),
            decreases self.remaining().len(),
        {
            let ghost ts = self.remaining();
            let ghost acc = exprs_view(exprs@);
            let ghost lastv = opt_expr_view(last);
            if self.is_eof() {
                return Err(ParseError::EndOfList);
            }
            let at_end = same_kind(&self.tokens[0].kind, terminator);
            let at_comma = match &self.tokens[0].kind {
                TokenKind::Comma => true,
                _ => false,
            };
            assert(self.tokens@[0].kind@ == ts[0]);
            if at_end {
                if let Some(e) = last {
                    proof {
                        lemma_exprs_view_push(exprs@, e);
                    }
                    exprs.push(e);
                }
                proof {
                    assert(exprs_view(exprs@) =~= acc + opt_to_seq(lastv));
                }
                self.consume();
                break ;
            }
            if at_comma {
                let e = match last {
                    Some(e) => e,
                    None => Expression::Nil,
                };
                proof {
                    lemma_exprs_view_push(exprs@, e);
                }
                exprs.push(e);
                proof {
                    assert(exprs_view(exprs@) =~= acc + seq![slot_item(lastv)]);
                }
                last = Some(Expression::Nil);
                self.consume();
                continue ;
            }
            match self.next_statement() {
                Ok(Statement::Expr(e)) => {
                    last = Some(e);
                },
                Ok(Statement::Empty) => {
                    return Err(ParseError::InvalidListValue);
                },
                Err(err) => {
                    return Err(err);
                },
            }
        }
        Ok(exprs)
    }

    /// An array whose opening bracket was just read.
    fn array(&mut self) -> (r: Result<Expression, ParseError>)
        ensures
            match spec_list(old(self).remaining(), SpecTokenKind::CloseBracket, false) {
                Ok((e, rest)) => r matches Ok(x) && x@ == e && final(self).remaining() == rest,
                Err((e, rest)) => r matches Err(err) && err@ == e && final(self).remaining() == rest,
            },
            final(self).remaining().len() <= old(self).remaining().len(),
        decreases old(self).remaining().len(), 2int,
    {
        let close = TokenKind::CloseBracket;
        match self.comma_seprated_list(&close) {
            Ok(exprs) => self.join_expr_modifiers(Expression::Array(exprs)),
            Err(e) => Err(e),
        }
    }

    /// A parameter set whose opening parenthesis was just read.
    fn paren_list(&mut self) -> (r: Result<Expression, ParseError>)
        ensures
            match spec_list(old(self).remaining(), SpecTokenKind::CloseParen, true) {
                Ok((e, rest)) => r matches Ok(x) && x@ == e && final(self).remaining() == rest,
                Err((e, rest)) => r matches Err(err) && err@ == e && final(self).remaining() == rest,
            },
            final(self).remaining().len() <= old(self).remaining().len(),
        decreases old(self).remaining().len(), 2int,
    {
        let close = TokenKind::CloseParen;
        match self.comma_seprated_list(&close) {
            Ok(exprs) => self.join_expr_modifiers(Expression::ParenList(exprs)),
            Err(e) => Err(e),
        }
    }
}

} // verus!
