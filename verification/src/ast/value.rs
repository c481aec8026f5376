//! The syntax tree: literals, expressions and statements.
use std::rc::Rc;
use vstd::prelude::*;

verus! {

/// A literal written in the source.
#[derive(Clone, Debug)]
pub enum LiteralValue {
    String(Rc<String>),
    Number(u128),
    Boolean(bool),
    Nil,
}

/// An expression.
///
/// `Call` applies `callie` to `args`; `ParenList` is a parameter set, whose items
/// fill the parameters of the function it is passed to; `Nil` is an empty slot
/// of a parameter set, left for a later argument to fill.
#[derive(Debug)]
pub enum Expression {
    Variable(String),
    Literal(LiteralValue),
    Call { callie: Box<Expression>, args: Vec<Expression> },
    Array(Vec<Expression>),
    ParenList(Vec<Expression>),
    Nil,
}

/// A statement: an expression, or nothing (a lone `;`).
#[derive(Debug)]
pub enum Statement {
    Expr(Expression),
    Empty,
}

/// The mathematical view of a literal.
pub enum SpecLiteral {
    String(Seq<char>),
    Number(u128),
    Boolean(bool),
    Nil,
}

/// The mathematical view of an expression.
pub enum SpecExpr {
    Variable(Seq<char>),
    Literal(SpecLiteral),
    Call(Box<SpecExpr>, Seq<SpecExpr>),
    Array(Seq<SpecExpr>),
    ParenList(Seq<SpecExpr>),
    Nil,
}

/// The mathematical view of a statement.
pub enum SpecStatement {
    Expr(SpecExpr),
    Empty,
}

impl View for LiteralValue {
    type V = SpecLiteral;

    open spec fn view(&self) -> SpecLiteral {
        match self {
            LiteralValue::String(s) => SpecLiteral::String(s@),
            LiteralValue::Number(n) => SpecLiteral::Number(*n),
            LiteralValue::Boolean(b) => SpecLiteral::Boolean(*b),
            LiteralValue::Nil => SpecLiteral::Nil,
        }
    }
}

/// The view of an expression.
pub open spec fn expr_view(e: Expression) -> SpecExpr
    decreases e,
{
    match e {
        Expression::Variable(s) => SpecExpr::Variable(s@),
        Expression::Literal(l) => SpecExpr::Literal(l@),
        Expression::Call { callie, args } => SpecExpr::Call(
            Box::new(expr_view(*callie)),
            exprs_view(args@),
        ),
        Expression::Array(v) => SpecExpr::Array(exprs_view(v@)),
        Expression::ParenList(v) => SpecExpr::ParenList(exprs_view(v@)),
        Expression::Nil => SpecExpr::Nil,
    }
}

/// The views of a sequence of expressions.
pub open spec fn exprs_view(s: Seq<Expression>) -> Seq<SpecExpr>
    decreases s,
{
    Seq::new(
        s.len(),
        |i: int|
            if 0 <= i < s.len() {
                expr_view(s[i])
            } else {
                SpecExpr::Nil
            },
    )
}

/// The view of an optional expression.
pub open spec fn opt_expr_view(o: Option<Expression>) -> Option<SpecExpr> {
    match o {
        Some(e) => Some(e@),
        None => None,
    }
}

pub proof fn lemma_exprs_view_push(s: Seq<Expression>, e: Expression)
    ensures
        exprs_view(s.push(e)) == exprs_view(s).push(e@),
{
    assert(exprs_view(s.push(e)) =~= exprs_view(s).push(e@));
}

pub proof fn lemma_exprs_view_empty()
    ensures
        exprs_view(Seq::<Expression>::empty()) == Seq::<SpecExpr>::empty(),
{
    assert(exprs_view(Seq::<Expression>::empty()) =~= Seq::<SpecExpr>::empty());
}

impl View for Expression {
    type V = SpecExpr;

    open spec fn view(&self) -> SpecExpr {
        expr_view(*self)
    }
}

/// A copy of a literal.
pub fn copy_literal(l: &LiteralValue) -> (r: LiteralValue)
    ensures
        r@ == l@,
{
    match l {
        LiteralValue::String(s) => LiteralValue::String(Rc::new((**s).clone())),
        LiteralValue::Number(n) => LiteralValue::Number(*n),
        LiteralValue::Boolean(b) => LiteralValue::Boolean(*b),
        LiteralValue::Nil => LiteralValue::Nil,
    }
}

/// A deep copy of an expression.
pub fn copy_expr(e: &Expression) -> (r: Expression)
    ensures
        r@ == e@,
    decreases e,
{
    match e {
        Expression::Variable(s) => Expression::Variable(s.clone()),
        Expression::Literal(l) => Expression::Literal(copy_literal(l)),
        Expression::Call { callie, args } => {
            let c = copy_expr(&**callie);
            let a = copy_exprs(args);
            Expression::Call { callie: Box::new(c), args: a }
        },
        Expression::Array(v) => Expression::Array(copy_exprs(v)),
        Expression::ParenList(v) => Expression::ParenList(copy_exprs(v)),
        Expression::Nil => Expression::Nil,
    }
}

/// A deep copy of a list of expressions.
pub fn copy_exprs(v: &Vec<Expression>) -> (r: Vec<Expression>)
    ensures
        exprs_view(r@) == exprs_view(v@),
    decreases v,
{
    let mut out: Vec<Expression> = Vec::new();
    let mut i: usize = 0;
    proof {
        lemma_exprs_view_empty();
    }
    while i < v.len()
        invariant
            i <= v.len(),
            exprs_view(out@) == exprs_view(v@.take(i as int)),
        decreases v.len() - i,
    {
        assert(decreases_to!(v => v@[i as int]));
        let x = copy_expr(&v[i]);
        proof {
            lemma_exprs_view_push(out@, x);
            assert(v@.take(i + 1) =~= v@.take(i as int).push(v@[i as int]));
            lemma_exprs_view_push(v@.take(i as int), v@[i as int]);
        }
        out.push(x);
        i = i + 1;
    }
    assert(v@.take(v.len() as int) =~= v@);
    out
}

impl Clone for Expression {
    /// A deep copy.
    fn clone(&self) -> (r: Self)
        ensures
            r@ == self@,
    {
        copy_expr(self)
    }
}

impl View for Statement {
    type V = SpecStatement;

    open spec fn view(&self) -> SpecStatement {
        match self {
            Statement::Expr(e) => SpecStatement::Expr(e@),
            Statement::Empty => SpecStatement::Empty,
        }
    }
}

} // verus!
