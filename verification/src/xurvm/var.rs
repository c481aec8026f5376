//! Run-time values: numbers, strings, arrays and (partially applied) functions.
use super::semantics::{
    count_filled, exprs_size, lemma_bind_args_size, lemma_transfer_len, spec_apply,
    spec_bind_args, spec_bind_fresh, spec_fill_bound, spec_spread, spec_transfer,
};
use super::vmcore::{Enviroment, XurVM};
use crate::ast::value::{copy_exprs, exprs_view, lemma_exprs_view_push, Expression, SpecExpr};
use crate::lexer::chars::chars_to_string;
use std::collections::VecDeque;
use std::rc::Rc;
use vstd::prelude::*;

verus! {

/// The functions built into the machine. A function value names the builtin
/// that runs once it has all its arguments.
#[derive(Clone, Copy, Debug, PartialEq, Eq)]
pub enum Builtin {
    /// `+`: the sum of two numbers.
    Add,
    /// `%`: the function bound to the name given as a string.
    Percent,
    /// `.`: `a.b` is `b(a)`, and `a.b(c)` is `b(a, c)`.
    Dot,
    /// `x2`: twice a number.
    X2,
    /// `to_int`: a string read as a number in the given base.
    ToInt,
    /// The function bound to a symbol `@name`.
    GetSymbolBind,
    /// `map`: an array with a function applied to each of its items;
    /// `[a, b].map(f)` is `[f(a), f(b)]`.
    MapEach,
}

/// A function value: a builtin, the number of arguments it takes, and the
/// arguments bound to it so far, still unevaluated.
#[derive(Debug)]
pub struct Callable {
    id: String,
    expected_args: (usize, usize),
    target: Builtin,
    binded_args: Vec<Expression>,
}

/// A run-time value.
#[derive(Debug)]
pub enum Value {
    Number(u128),
    String(Rc<String>),
    Function(Callable),
    Array(Vec<Value>),
    Nil,
}

/// Why an expression could not be evaluated.
#[derive(Debug)]
pub enum VmError {
    /// The variable is not bound.
    NotDefined(String),
    /// A literal of a kind that is not evaluated (booleans and nil).
    UnsupportedLiteral,
    /// An expression that can only be evaluated as a call, and is none.
    CannotRun,
    /// A value called as a function, or asked for as one, is not one.
    NotCallable,
    /// A value used as a number is not one.
    NotNumber,
    /// A value used as a string is not one.
    NotString,
    /// A builtin got fewer arguments than it reads.
    MissingArgument,
    /// No function is bound to the name.
    NoBinding(String),
    /// `to_int` was asked for a base outside 2 to 36.
    InvalidRadix,
    /// `to_int` could not read the string as a number in the base.
    InvalidNumber,
    /// The result of an arithmetic builtin does not fit in a `u128`.
    Overflow,
    /// A value used as an array is not one.
    NotArray,
}

/// The mathematical view of a function value.
pub struct SpecCallable {
    pub id: Seq<char>,
    pub expected_args: (usize, usize),
    pub target: Builtin,
    pub binded_args: Seq<SpecExpr>,
}

/// The mathematical view of a value.
pub enum SpecValue {
    Number(u128),
    String(Seq<char>),
    Function(SpecCallable),
    Array(Seq<SpecValue>),
    Nil,
}

/// The mathematical view of an evaluation error. `Malformed` belongs to the
/// definition only: it marks a call whose function holds more arguments than
/// the expression it came from, which never happens.
pub enum SpecVmError {
    NotDefined(Seq<char>),
    UnsupportedLiteral,
    CannotRun,
    NotCallable,
    NotNumber,
    NotString,
    MissingArgument,
    NoBinding(Seq<char>),
    InvalidRadix,
    InvalidNumber,
    Overflow,
    NotArray,
    Malformed,
}

impl View for Callable {
    type V = SpecCallable;

    closed spec fn view(&self) -> SpecCallable {
        SpecCallable {
            id: self.id@,
            expected_args: self.expected_args,
            target: self.target,
            binded_args: exprs_view(self.binded_args@),
        }
    }
}

/// The view of a value.
pub open spec fn value_view(v: Value) -> SpecValue
    decreases v,
{
    match v {
        Value::Number(n) => SpecValue::Number(n),
        Value::String(s) => SpecValue::String(s@),
        Value::Function(c) => SpecValue::Function(c@),
        Value::Array(a) => SpecValue::Array(values_view(a@)),
        Value::Nil => SpecValue::Nil,
    }
}

/// The views of a sequence of values.
pub open spec fn values_view(s: Seq<Value>) -> Seq<SpecValue>
    decreases s,
{
    Seq::new(
        s.len(),
        |i: int|
            if 0 <= i < s.len() {
                value_view(s[i])
            } else {
                SpecValue::Nil
            },
    )
}

impl View for Value {
    type V = SpecValue;

    open spec fn view(&self) -> SpecValue {
        value_view(*self)
    }
}

impl View for VmError {
    type V = SpecVmError;

    open spec fn view(&self) -> SpecVmError {
        match self {
            VmError::NotDefined(s) => SpecVmError::NotDefined(s@),
            VmError::UnsupportedLiteral => SpecVmError::UnsupportedLiteral,
            VmError::CannotRun => SpecVmError::CannotRun,
            VmError::NotCallable => SpecVmError::NotCallable,
            VmError::NotNumber => SpecVmError::NotNumber,
            VmError::NotString => SpecVmError::NotString,
            VmError::MissingArgument => SpecVmError::MissingArgument,
            VmError::NoBinding(s) => SpecVmError::NoBinding(s@),
            VmError::InvalidRadix => SpecVmError::InvalidRadix,
            VmError::InvalidNumber => SpecVmError::InvalidNumber,
            VmError::Overflow => SpecVmError::Overflow,
            VmError::NotArray => SpecVmError::NotArray,
        }
    }
}

/// Whether `n` arguments lie within `(min, max)`.
pub open spec fn spec_args_fit(expected: (usize, usize), n: int) -> bool {
    expected.0 <= n && n <= expected.1
}

/// A fresh function value: the builtin `f` under `name`, taking `arg_n`
/// arguments, with none bound.
pub open spec fn spec_create_fn(name: Seq<char>, arg_n: usize, f: Builtin) -> SpecValue {
    SpecValue::Function(
        SpecCallable { id: name, expected_args: (arg_n, arg_n), target: f, binded_args: Seq::empty() },
    )
}

impl Callable {
    /// Whether `n` arguments are enough, and not too many, to run the function.
    pub fn args_fit(&self, n: usize) -> (r: bool)
        ensures
            r == spec_args_fit(self@.expected_args, n as int),
    {
        n >= self.expected_args.0 && n <= self.expected_args.1
    }

    /// The least number of arguments the function runs with.
    pub fn min_args(&self) -> (r: usize)
        ensures
            r == (if self@.expected_args.0 <= self@.expected_args.1 {
                self@.expected_args.0
            } else {
                self@.expected_args.1
            }),
    {
        if self.expected_args.0 <= self.expected_args.1 {
            self.expected_args.0
        } else {
            self.expected_args.1
        }
    }

    /// The name the function was created under.
    pub fn name(&self) -> (r: &str)
        ensures
            r@ == self@.id,
    {
        self.id.as_str()
    }

    /// The builtin the function runs.
    pub fn target(&self) -> (r: Builtin)
        ensures
            r == self@.target,
    {
        self.target
    }

    /// The least and the greatest number of arguments the function runs with.
    pub(crate) fn expected_args(&self) -> (r: (usize, usize))
        ensures
            r == self@.expected_args,
    {
        self.expected_args
    }

    /// Calls the function with `args`, in the machine `env`.
    ///
    /// The new arguments are bound to those the function holds (see
    /// `spec_bind_args`); if the number of them that are filled does not fit,
    /// the result is the function with those arguments bound, otherwise what its
    /// builtin gives for them.
    pub fn call(self, env: &XurVM, args: Vec<Expression>) -> (r: Result<Value, VmError>)
        ensures
            match spec_apply(env.bindings(), self@, exprs_view(args@)) {
                Ok(v) => r matches Ok(x) && x@ == v,
                Err(e) => r matches Err(x) && x@ == e,
            },
            r matches Ok(v) ==> value_fn_size(v@) <= exprs_size(self@.binded_args) + exprs_size(
                exprs_view(args@),
            ),
        decreases exprs_size(self@.binded_args) + exprs_size(exprs_view(args@)), 9int,
    {
        let ghost bv = self@.binded_args;
        let ghost av = exprs_view(args@);
        let (id, expected, target, binded) = self.into_parts();
        let new_args = if binded.len() > 0 {
            bind_to_bound(binded, args)
        } else {
            let fresh = bind_fresh(args);
            fresh
        };
        proof {
            lemma_bind_args_size(bv, av);
        }
        let n = count_args(&new_args);
        if !(n >= expected.0 && n <= expected.1) {
            return Ok(Value::Function(Callable::from_parts(id, expected, target, new_args)));
        }
        env.run_builtin(target, new_args)
    }

    /// The arguments bound to the function so far.
    pub fn binded_args(&self) -> (r: &Vec<Expression>)
        ensures
            exprs_view(r@) == self@.binded_args,
    {
        &self.binded_args
    }

    /// Takes the function apart: name, argument counts, builtin, bound arguments.
    pub(crate) fn into_parts(self) -> (r: (String, (usize, usize), Builtin, Vec<Expression>))
        ensures
            r.0@ == self@.id,
            r.1 == self@.expected_args,
            r.2 == self@.target,
            exprs_view(r.3@) == self@.binded_args,
    {
        (self.id, self.expected_args, self.target, self.binded_args)
    }

    /// Puts a function together from its parts.
    pub(crate) fn from_parts(
        id: String,
        expected_args: (usize, usize),
        target: Builtin,
        binded_args: Vec<Expression>,
    ) -> (c: Callable)
        ensures
            c@ == (SpecCallable {
                id: id@,
                expected_args,
                target,
                binded_args: exprs_view(binded_args@),
            }),
    {
        Callable { id, expected_args, target, binded_args }
    }
}

/// The total size of the arguments bound in a function value; 0 for other values.
pub open spec fn value_fn_size(v: SpecValue) -> nat {
    match v {
        SpecValue::Function(c) => exprs_size(c.binded_args),
        _ => 0,
    }
}

/// Whether `v` is a function with no bound arguments.
pub open spec fn is_unbound_function(v: SpecValue) -> bool {
    v matches SpecValue::Function(c) && c.binded_args.len() == 0
}

/// The items of a vector in a queue, front first.
pub(crate) fn to_deque<T>(v: Vec<T>) -> (d: VecDeque<T>)
    ensures
        d@ == v@,
{
    let ghost all = v@;
    let mut v = v;
    let mut d: VecDeque<T> = VecDeque::new();
    while v.len() > 0
        invariant
            all == v@ + d@,
        decreases v.len(),
    {
        let x = v.pop().unwrap();
        d.push_front(x);
        assert(all =~= v@ + d@);
    }
    assert(d@ =~= all);
    d
}

/// Takes the front item of a queue of expressions.
fn pop_expr(q: &mut VecDeque<Expression>) -> (r: Option<Expression>)
    ensures
        exprs_view(old(q)@).len() == old(q)@.len(),
        old(q)@.len() == 0 ==> r is None && final(q)@ == old(q)@,
        old(q)@.len() > 0 ==> (r matches Some(e) && e@ == exprs_view(old(q)@)[0] && exprs_view(
            final(q)@,
        ) == exprs_view(old(q)@).drop_first() && final(q)@.len() == old(q)@.len() - 1),
{
    let ghost before = q@;
    let r = q.pop_front();
    proof {
        if before.len() > 0 {
            assert(exprs_view(q@) =~= exprs_view(before).drop_first());
        }
    }
    r
}

/// Puts the items of the parameter set `source` after `destination`, filling
/// its empty slots, in order, from the front of `fill_list` as far as it goes.
pub fn transfer_expression_list(
    destination: &mut Vec<Expression>,
    source: Vec<Expression>,
    fill_list: &mut VecDeque<Expression>,
)
    ensures
        exprs_view(final(destination)@) == exprs_view(old(destination)@) + spec_transfer(
            exprs_view(source@),
            exprs_view(old(fill_list)@),
        ).0,
        exprs_view(final(fill_list)@) == spec_transfer(
            exprs_view(source@),
            exprs_view(old(fill_list)@),
        ).1,
{
    let ghost s0 = exprs_view(source@);
    let ghost f0 = exprs_view(fill_list@);
    let ghost d0 = exprs_view(destination@);
    let mut src = to_deque(source);
    loop
        invariant
            ({
                let (a, b) = spec_transfer(exprs_view(src@), exprs_view(fill_list@));
                spec_transfer(s0, f0) == (exprs_view(destination@).subrange(d0.len() as int, exprs_view(destination@).len() as int) + a, b)
            }),
            exprs_view(destination@).subrange(0, d0.len() as int) == d0,
            d0.len() <= exprs_view(destination@).len(),
        ensures
            src@.len() == 0,
        decreases src@.len(),
    {
        let ghost sv = exprs_view(src@);
        let ghost fv = exprs_view(fill_list@);
        let ghost dv = exprs_view(destination@);
        let ex = match pop_expr(&mut src) {
            Some(e) => e,
            None => {
                break ;
            },
        };
        let is_nil = match ex {
            Expression::Nil => true,
            _ => false,
        };
        if is_nil && fill_list.len() > 0 {
            let f = pop_expr(fill_list).unwrap();
            proof {
                lemma_exprs_view_push(destination@, f);
            }
            destination.push(f);
        } else {
            proof {
                lemma_exprs_view_push(destination@, ex);
            }
            destination.push(ex);
        }
        proof {
            let nd = exprs_view(destination@);
            assert(nd.subrange(0, d0.len() as int) =~= d0);
            assert(nd.subrange(d0.len() as int, nd.len() as int) =~= dv.subrange(
                d0.len() as int,
                dv.len() as int,
            ).push(nd[nd.len() - 1]));
            let (a, b) = spec_transfer(exprs_view(src@), exprs_view(fill_list@));
            assert(spec_transfer(sv, fv) == (seq![nd[nd.len() - 1]] + a, b));
            assert(dv.subrange(d0.len() as int, dv.len() as int) + (seq![nd[nd.len() - 1]] + a)
                =~= nd.subrange(d0.len() as int, nd.len() as int) + a);
        }
    }
    proof {
        let dv = exprs_view(destination@);
        assert(exprs_view(src@) =~= Seq::<SpecExpr>::empty());
        assert(dv =~= d0 + dv.subrange(d0.len() as int, dv.len() as int));
        assert(dv.subrange(d0.len() as int, dv.len() as int) + Seq::<SpecExpr>::empty() =~= dv.subrange(d0.len() as int, dv.len() as int));
    }
}

/// Binds `args` to the arguments `binded` a function already holds (some).
fn bind_to_bound(binded: Vec<Expression>, args: Vec<Expression>) -> (r: Vec<Expression>)
    requires
        binded@.len() > 0,
    ensures
        exprs_view(r@) == spec_bind_args(exprs_view(binded@), exprs_view(args@)),
{
    let ghost b0 = exprs_view(binded@);
    let ghost a0 = exprs_view(args@);
    let mut new_args: Vec<Expression> = Vec::new();
    let mut v = to_deque(args);
    let mut bq = to_deque(binded);
    assert(exprs_view(new_args@) =~= Seq::<SpecExpr>::empty());
    loop
        invariant
            ({
                let (a, l) = spec_fill_bound(exprs_view(bq@), exprs_view(v@));
                spec_fill_bound(b0, a0) == (exprs_view(new_args@) + a, l)
            }),
        ensures
            spec_fill_bound(b0, a0) == (exprs_view(new_args@), exprs_view(v@)),
        decreases bq@.len(),
    {
        let ghost bv = exprs_view(bq@);
        let ghost vv = exprs_view(v@);
        let ghost nv = exprs_view(new_args@);
        let e = match pop_expr(&mut bq) {
            Some(e) => e,
            None => {
                assert(nv + Seq::<SpecExpr>::empty() =~= nv);
                break ;
            },
        };
        match e {
            Expression::Nil => {
                if v.len() > 0 {
                    let x = pop_expr(&mut v).unwrap();
                    proof {
                        lemma_exprs_view_push(new_args@, x);
                    }
                    new_args.push(x);
                } else {
                    proof {
                        lemma_exprs_view_push(new_args@, Expression::Nil);
                    }
                    new_args.push(Expression::Nil);
                }
            },
            Expression::ParenList(p) => {
                transfer_expression_list(&mut new_args, p, &mut v);
            },
            x => {
                proof {
                    lemma_exprs_view_push(new_args@, x);
                }
                new_args.push(x);
            },
        }
        proof {
            let (a, l) = spec_fill_bound(exprs_view(bq@), exprs_view(v@));
            assert(exprs_view(new_args@) + a =~= nv + (exprs_view(new_args@).subrange(nv.len() as int, exprs_view(new_args@).len() as int) + a));
            assert(exprs_view(new_args@) =~= nv + exprs_view(new_args@).subrange(nv.len() as int, exprs_view(new_args@).len() as int));
        }
    }
    let ghost filled = exprs_view(new_args@);
    let ghost left = exprs_view(v@);
    let spread_rest = spread(v);
    let mut tail = spread_rest;
    new_args.append(&mut tail);
    proof {
        assert(exprs_view(new_args@) =~= filled + spec_spread(left));
    }
    new_args
}

/// The arguments with every parameter set spread out into its items.
fn spread(q: VecDeque<Expression>) -> (r: Vec<Expression>)
    ensures
        exprs_view(r@) == spec_spread(exprs_view(q@)),
{
    let ghost q0 = exprs_view(q@);
    let mut q = q;
    let mut out: Vec<Expression> = Vec::new();
    assert(exprs_view(out@) =~= Seq::<SpecExpr>::empty());
    loop
        invariant
            spec_spread(q0) == exprs_view(out@) + spec_spread(exprs_view(q@)),
        ensures
            spec_spread(q0) == exprs_view(out@),
        decreases q@.len(),
    {
        let ghost qv = exprs_view(q@);
        let ghost ov = exprs_view(out@);
        let e = match pop_expr(&mut q) {
            Some(e) => e,
            None => {
                assert(ov + Seq::<SpecExpr>::empty() =~= ov);
                break ;
            },
        };
        match e {
            Expression::ParenList(p) => {
                let ghost pv = exprs_view(p@);
                let mut p = p;
                out.append(&mut p);
                proof {
                    assert(exprs_view(out@) =~= ov + pv);
                }
            },
            x => {
                proof {
                    lemma_exprs_view_push(out@, x);
                }
                out.push(x);
            },
        }
        proof {
            assert(spec_spread(q0) =~= exprs_view(out@) + spec_spread(exprs_view(q@)));
        }
    }
    out
}

/// The arguments of a builtin with every parameter set spread out into its items.
pub(crate) fn spread_args(args: Vec<Expression>) -> (r: Vec<Expression>)
    ensures
        exprs_view(r@) == spec_spread(exprs_view(args@)),
{
    spread(to_deque(args))
}

/// The arguments of a call of a function that holds no arguments yet.
fn bind_fresh(args: Vec<Expression>) -> (r: Vec<Expression>)
    ensures
        exprs_view(r@) == spec_bind_fresh(exprs_view(args@)),
{
    let ghost a0 = exprs_view(args@);
    let mut v = to_deque(args);
    let mut out: Vec<Expression> = Vec::new();
    assert(exprs_view(out@) =~= Seq::<SpecExpr>::empty());
    loop
        invariant
            spec_bind_fresh(a0) == exprs_view(out@) + spec_bind_fresh(exprs_view(v@)),
        ensures
            spec_bind_fresh(a0) == exprs_view(out@),
        decreases v@.len(),
    {
        let ghost vv = exprs_view(v@);
        let ghost ov = exprs_view(out@);
        let e = match pop_expr(&mut v) {
            Some(e) => e,
            None => {
                assert(ov + Seq::<SpecExpr>::empty() =~= ov);
                break ;
            },
        };
        match e {
            Expression::ParenList(p) => {
                proof {
                    lemma_transfer_len(exprs_view(p@), exprs_view(v@));
                }
                transfer_expression_list(&mut out, p, &mut v);
                proof {
                    assert(exprs_view(v@).len() == v@.len());
                }
            },
            x => {
                proof {
                    lemma_exprs_view_push(out@, x);
                }
                out.push(x);
            },
        }
        proof {
            assert(spec_bind_fresh(a0) =~= exprs_view(out@) + spec_bind_fresh(exprs_view(v@)));
        }
    }
    out
}

/// The number of arguments that are not empty slots.
fn count_args(v: &Vec<Expression>) -> (n: usize)
    ensures
        n == count_filled(exprs_view(v@)),
{
    let ghost s = exprs_view(v@);
    let mut n: usize = 0;
    let mut i: usize = 0;
    assert(s.skip(0) =~= s);
    while i < v.len()
        invariant
            s == exprs_view(v@),
            i <= v.len(),
            n <= i,
            count_filled(s) == n + count_filled(s.skip(i as int)),
        decreases v.len() - i,
    {
        assert(s.skip(i as int).drop_first() =~= s.skip(i + 1));
        assert(s.skip(i as int)[0] == v@[i as int]@);
        match &v[i] {
            Expression::Nil => {},
            _ => {
                n = n + 1;
            },
        }
        i = i + 1;
    }
    assert(s.skip(i as int) =~= Seq::<SpecExpr>::empty());
    n
}

/// The character of a decimal digit.
pub open spec fn spec_decimal_digit(d: int) -> char {
    seq!['0', '1', '2', '3', '4', '5', '6', '7', '8', '9'][d]
}

/// The decimal numeral of `n`.
pub open spec fn decimal_text(n: nat) -> Seq<char>
    decreases n,
{
    if n < 10 {
        seq![spec_decimal_digit(n as int)]
    } else {
        decimal_text(n / 10).push(spec_decimal_digit((n % 10) as int))
    }
}

/// How a value prints for debugging: `Value(..)` around a number, the text
/// of a string, or the items of an array; `Value(?)` for a function and
/// `Value(None)` for nil.
pub open spec fn value_text(v: SpecValue) -> Seq<char>
    decreases v,
{
    match v {
        SpecValue::Number(n) => seq!['V', 'a', 'l', 'u', 'e', '('] + decimal_text(n as nat) + seq![')'],
        SpecValue::String(s) => seq!['V', 'a', 'l', 'u', 'e', '('] + s + seq![')'],
        SpecValue::Function(_) => seq!['V', 'a', 'l', 'u', 'e', '(', '?', ')'],
        SpecValue::Array(vs) => seq!['V', 'a', 'l', 'u', 'e', '(', '['] + list_text(vs) + seq![']', ')'],
        SpecValue::Nil => seq!['V', 'a', 'l', 'u', 'e', '(', 'N', 'o', 'n', 'e', ')'],
    }
}

/// The texts of the values, separated by `, `.
pub open spec fn list_text(vs: Seq<SpecValue>) -> Seq<char>
    decreases vs,
{
    if vs.len() == 0 {
        Seq::empty()
    } else if vs.len() == 1 {
        value_text(vs[0])
    } else {
        list_text(vs.subrange(0, vs.len() - 1)) + seq![',', ' '] + value_text(vs[vs.len() - 1])
    }
}

fn decimal_digit(d: u128) -> (c: char)
    requires
        d < 10,
    ensures
        c == spec_decimal_digit(d as int),
{
    if d == 0 {
        '0'
    } else if d == 1 {
        '1'
    } else if d == 2 {
        '2'
    } else if d == 3 {
        '3'
    } else if d == 4 {
        '4'
    } else if d == 5 {
        '5'
    } else if d == 6 {
        '6'
    } else if d == 7 {
        '7'
    } else if d == 8 {
        '8'
    } else {
        '9'
    }
}

fn push_decimal(n: u128, out: &mut Vec<char>)
    ensures
        final(out)@ == old(out)@ + decimal_text(n as nat),
    decreases n,
{
    if n < 10 {
        out.push(decimal_digit(n));
    } else {
        push_decimal(n / 10, out);
        out.push(decimal_digit(n % 10));
        assert((old(out)@ + decimal_text((n / 10) as nat)).push(spec_decimal_digit((n % 10) as int))
            =~= old(out)@ + decimal_text((n / 10) as nat).push(spec_decimal_digit((n % 10) as int)));
    }
}

fn push_chars(out: &mut Vec<char>, s: &[char])
    ensures
        final(out)@ == old(out)@ + s@,
{
    let mut i: usize = 0;
    while i < s.len()
        invariant
            i <= s.len(),
            out@ == old(out)@ + s@.take(i as int),
        decreases s.len() - i,
    {
        out.push(s[i]);
        assert(s@.take(i + 1) =~= s@.take(i as int).push(s@[i as int]));
        i = i + 1;
    }
    assert(s@.take(i as int) =~= s@);
}

fn push_value_text(v: &Value, out: &mut Vec<char>)
    ensures
        final(out)@ == old(out)@ + value_text(v@),
    decreases v,
{
    let ghost o = out@;
    match v {
        Value::Number(n) => {
            push_chars(out, &['V', 'a', 'l', 'u', 'e', '(']);
            push_decimal(*n, out);
            out.push(')');
        },
        Value::String(s) => {
            push_chars(out, &['V', 'a', 'l', 'u', 'e', '(']);
            let st: &String = &**s;
            let cs = crate::lexer::chars::chars_of(st.as_str());
            push_chars(out, cs.as_slice());
            out.push(')');
        },
        Value::Function(_) => {
            push_chars(out, &['V', 'a', 'l', 'u', 'e', '(', '?', ')']);
        },
        Value::Array(a) => {
            push_chars(out, &['V', 'a', 'l', 'u', 'e', '(', '[']);
            let ghost start = out@;
            let ghost vs = values_view(a@);
            let mut i: usize = 0;
            while i < a.len()
                invariant
                    i <= a.len(),
                    vs == values_view(a@),
                    *v == Value::Array(*a),
                    out@ == start + list_text(vs.take(i as int)),
                decreases a.len() - i,
            {
                assert(vs.take(i + 1).subrange(0, i as int) =~= vs.take(i as int));
                if i > 0 {
                    push_chars(out, &[',', ' ']);
                }
                proof {
                    assert(decreases_to!(*v => (*v)->Array_0));
                    assert((*v)->Array_0 == *a);
                    assert(decreases_to!(*a => a@));
                    assert(decreases_to!(a@ => a@[i as int]));
                    assert(decreases_to!(*v => a@[i as int]));
                }
                push_value_text(&a[i], out);
                i = i + 1;
            }
            assert(vs.take(i as int) =~= vs);
            push_chars(out, &[']', ')']);
        },
        Value::Nil => {
            push_chars(out, &['V', 'a', 'l', 'u', 'e', '(', 'N', 'o', 'n', 'e', ')']);
        },
    }
    assert(out@ =~= o + value_text(v@));
}

impl Clone for Callable {
    /// A copy, with copies of the bound arguments.
    fn clone(&self) -> (r: Self)
        ensures
            r@ == self@,
    {
        Callable {
            id: self.id.clone(),
            expected_args: self.expected_args,
            target: self.target,
            binded_args: copy_exprs(&self.binded_args),
        }
    }
}

/// A deep copy of a value.
pub fn copy_value(v: &Value) -> (r: Value)
    ensures
        r@ == v@,
    decreases v,
{
    match v {
        Value::Number(n) => Value::Number(*n),
        Value::String(s) => Value::String(Rc::new((**s).clone())),
        Value::Function(c) => Value::Function(c.clone()),
        Value::Array(a) => Value::Array(copy_values(a)),
        Value::Nil => Value::Nil,
    }
}

/// A deep copy of a list of values.
pub fn copy_values(v: &Vec<Value>) -> (r: Vec<Value>)
    ensures
        values_view(r@) == values_view(v@),
    decreases v,
{
    let mut out: Vec<Value> = Vec::new();
    let mut i: usize = 0;
    assert(values_view(out@) =~= values_view(v@.take(0)));
    while i < v.len()
        invariant
            i <= v.len(),
            values_view(out@) == values_view(v@.take(i as int)),
        decreases v.len() - i,
    {
        assert(decreases_to!(v => v@[i as int]));
        let x = copy_value(&v[i]);
        let ghost o = out@;
        out.push(x);
        proof {
            assert(v@.take(i + 1) =~= v@.take(i as int).push(v@[i as int]));
            assert(values_view(out@) =~= values_view(o).push(x@));
            assert(values_view(v@.take(i + 1)) =~= values_view(v@.take(i as int)).push(v@[i as int]@));
        }
        i = i + 1;
    }
    assert(v@.take(v.len() as int) =~= v@);
    out
}

impl Clone for Value {
    /// A deep copy.
    fn clone(&self) -> (r: Self)
        ensures
            r@ == self@,
    {
        copy_value(self)
    }
}

impl Value {
    /// The text the value prints as for debugging (see `value_text`).
    pub fn debug_text(&self) -> (s: String)
        ensures
            s@ == value_text(self@),
    {
        let mut out: Vec<char> = Vec::new();
        push_value_text(self, &mut out);
        assert(out@ =~= value_text(self@));
        chars_to_string(&out)
    }

    /// A function value for the builtin `f` under `name`, taking `arg_n`
    /// arguments, with none bound yet.
    pub fn create_fn(name: &str, arg_n: usize, f: Builtin) -> (v: Value)
        ensures
            v@ == spec_create_fn(name@, arg_n, f),
    {
        let v = Value::Function(
            Callable {
                id: name.to_owned(),
                expected_args: (arg_n, arg_n),
                target: f,
                binded_args: Vec::new(),
            },
        );
        proof {
            assert(exprs_view(Seq::<Expression>::empty()) =~= Seq::<SpecExpr>::empty());
        }
        v
    }

    /// The function in the value; `NotCallable` when it holds none.
    pub fn get_callable(self) -> (r: Result<Callable, VmError>)
        ensures
            match self@ {
                SpecValue::Function(c) => r matches Ok(f) && f@ == c,
                _ => r matches Err(e) && e@ == SpecVmError::NotCallable,
            },
    {
        match self {
            Value::Function(f) => Ok(f),
            _ => Err(VmError::NotCallable),
        }
    }

    /// The number in the value; `NotNumber` when it holds none.
    pub fn get_number(self) -> (r: Result<u128, VmError>)
        ensures
            match self@ {
                SpecValue::Number(n) => r == Ok::<u128, VmError>(n),
                _ => r matches Err(e) && e@ == SpecVmError::NotNumber,
            },
    {
        match self {
            Value::Number(f) => Ok(f),
            _ => Err(VmError::NotNumber),
        }
    }

    /// The string in the value; `NotString` when it holds none.
    pub fn get_string(self) -> (r: Result<Rc<String>, VmError>)
        ensures
            match self@ {
                SpecValue::String(s) => r matches Ok(x) && x@ == s,
                _ => r matches Err(e) && e@ == SpecVmError::NotString,
            },
    {
        match self {
            Value::String(f) => Ok(f),
            _ => Err(VmError::NotString),
        }
    }
}

} // verus!
