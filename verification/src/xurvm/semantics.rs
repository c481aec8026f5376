//! What evaluating an expression gives: the meaning of the language, as
//! mathematical functions over the views of expressions and values.
use super::var::{spec_args_fit, value_fn_size, Builtin, SpecCallable, SpecValue, SpecVmError};
use super::vmcore::{all_unbound, lemma_lookup_unbound};
use crate::ast::value::{SpecExpr, SpecLiteral};
use crate::lexer::numeric::spec_from_str_radix;
use vstd::prelude::*;

verus! {

/// The size of an expression: the number of its nodes.
pub open spec fn expr_size(e: SpecExpr) -> nat
    decreases e,
{
    match e {
        SpecExpr::Call(c, args) => 1 + expr_size(*c) + exprs_size(args),
        SpecExpr::Array(a) => 1 + exprs_size(a),
        SpecExpr::ParenList(p) => 1 + exprs_size(p),
        _ => 1,
    }
}

/// The total size of a sequence of expressions.
pub open spec fn exprs_size(s: Seq<SpecExpr>) -> nat
    decreases s,
{
    if s.len() == 0 {
        0
    } else {
        expr_size(s[0]) + exprs_size(s.subrange(1, s.len() as int))
    }
}

pub proof fn lemma_exprs_size_concat(a: Seq<SpecExpr>, b: Seq<SpecExpr>)
    ensures
        exprs_size(a + b) == exprs_size(a) + exprs_size(b),
    decreases a.len(),
{
    if a.len() == 0 {
        assert(a + b =~= b);
    } else {
        assert((a + b).subrange(1, (a + b).len() as int) =~= a.subrange(1, a.len() as int) + b);
        lemma_exprs_size_concat(a.subrange(1, a.len() as int), b);
    }
}

pub proof fn lemma_exprs_size_single(x: SpecExpr)
    ensures
        exprs_size(seq![x]) == expr_size(x),
{
    assert(seq![x].subrange(1, 1) =~= Seq::<SpecExpr>::empty());
    reveal_with_fuel(exprs_size, 2);
}

pub proof fn lemma_exprs_size_first(s: Seq<SpecExpr>)
    requires
        s.len() > 0,
    ensures
        exprs_size(s) == expr_size(s[0]) + exprs_size(s.drop_first()),
        expr_size(s[0]) >= 1,
{
}

/// The last two items of a sequence are together no larger than the sequence.
pub proof fn lemma_exprs_size_last_two(s: Seq<SpecExpr>)
    requires
        s.len() >= 2,
    ensures
        expr_size(s[s.len() - 1]) + expr_size(s[s.len() - 2]) <= exprs_size(s),
{
    let n = s.len() as int;
    assert(s =~= s.subrange(0, n - 2) + (seq![s[n - 2]] + seq![s[n - 1]]));
    lemma_exprs_size_concat(s.subrange(0, n - 2), seq![s[n - 2]] + seq![s[n - 1]]);
    lemma_exprs_size_concat(seq![s[n - 2]], seq![s[n - 1]]);
    lemma_exprs_size_single(s[n - 2]);
    lemma_exprs_size_single(s[n - 1]);
}

/// Fills the empty slots (`Nil`) of the parameter set `source`, in order, from
/// the front of `fill`, as far as `fill` goes. Gives the filled items and what
/// is left of `fill`.
pub open spec fn spec_transfer(source: Seq<SpecExpr>, fill: Seq<SpecExpr>) -> (
    Seq<SpecExpr>,
    Seq<SpecExpr>,
)
    decreases source.len(),
{
    if source.len() == 0 {
        (Seq::empty(), fill)
    } else {
        let head = if source[0] is Nil && fill.len() > 0 {
            fill[0]
        } else {
            source[0]
        };
        let fill1 = if source[0] is Nil && fill.len() > 0 {
            fill.drop_first()
        } else {
            fill
        };
        let (rest, fill2) = spec_transfer(source.drop_first(), fill1);
        (seq![head] + rest, fill2)
    }
}

/// Fills the arguments already bound to a function with new ones: an empty
/// slot takes the next new argument, a parameter set has its empty slots
/// filled and is spread out, any other argument stays. Gives the filled
/// arguments and the new arguments left over.
pub open spec fn spec_fill_bound(bound: Seq<SpecExpr>, args: Seq<SpecExpr>) -> (
    Seq<SpecExpr>,
    Seq<SpecExpr>,
)
    decreases bound.len(),
{
    if bound.len() == 0 {
        (Seq::empty(), args)
    } else {
        let (part, left) = match bound[0] {
            SpecExpr::Nil => if args.len() > 0 {
                (seq![args[0]], args.drop_first())
            } else {
                (seq![SpecExpr::Nil], args)
            },
            SpecExpr::ParenList(p) => spec_transfer(p, args),
            x => (seq![x], args),
        };
        let (more, left2) = spec_fill_bound(bound.drop_first(), left);
        (part + more, left2)
    }
}

/// The arguments with every parameter set spread out into its items.
pub open spec fn spec_spread(args: Seq<SpecExpr>) -> Seq<SpecExpr>
    decreases args.len(),
{
    if args.len() == 0 {
        Seq::empty()
    } else {
        (match args[0] {
            SpecExpr::ParenList(p) => p,
            x => seq![x],
        }) + spec_spread(args.drop_first())
    }
}

pub proof fn lemma_transfer_len(source: Seq<SpecExpr>, fill: Seq<SpecExpr>)
    ensures
        spec_transfer(source, fill).1.len() <= fill.len(),
        exprs_size(spec_transfer(source, fill).0) + exprs_size(spec_transfer(source, fill).1)
            <= exprs_size(source) + exprs_size(fill),
    decreases source.len(),
{
    if source.len() > 0 {
        let take = source[0] is Nil && fill.len() > 0;
        let head = if take {
            fill[0]
        } else {
            source[0]
        };
        let fill1 = if take {
            fill.drop_first()
        } else {
            fill
        };
        lemma_transfer_len(source.drop_first(), fill1);
        let (rest, fill2) = spec_transfer(source.drop_first(), fill1);
        lemma_exprs_size_concat(seq![head], rest);
        lemma_exprs_size_single(head);
    }
}

/// The arguments of a call of a function with no bound arguments: a parameter
/// set has its empty slots filled from the arguments after it and is spread
/// out; any other argument is taken as it is.
pub open spec fn spec_bind_fresh(args: Seq<SpecExpr>) -> Seq<SpecExpr>
    decreases args.len(),
{
    if args.len() == 0 {
        Seq::empty()
    } else {
        match args[0] {
            SpecExpr::ParenList(p) => {
                proof {
                    lemma_transfer_len(p, args.drop_first());
                }
                let (part, left) = spec_transfer(p, args.drop_first());
                part + spec_bind_fresh(left)
            },
            x => seq![x] + spec_bind_fresh(args.drop_first()),
        }
    }
}

/// The arguments bound to a function once it is called with `args`.
pub open spec fn spec_bind_args(bound: Seq<SpecExpr>, args: Seq<SpecExpr>) -> Seq<SpecExpr> {
    if bound.len() > 0 {
        let (filled, left) = spec_fill_bound(bound, args);
        filled + spec_spread(left)
    } else {
        spec_bind_fresh(args)
    }
}

/// The number of arguments that are not empty slots.
pub open spec fn count_filled(s: Seq<SpecExpr>) -> nat
    decreases s.len(),
{
    if s.len() == 0 {
        0
    } else {
        (if s[0] is Nil {
            0nat
        } else {
            1nat
        }) + count_filled(s.drop_first())
    }
}

pub proof fn lemma_spread_size(args: Seq<SpecExpr>)
    ensures
        exprs_size(spec_spread(args)) <= exprs_size(args),
    decreases args.len(),
{
    if args.len() > 0 {
        let part = match args[0] {
            SpecExpr::ParenList(p) => p,
            x => seq![x],
        };
        lemma_spread_size(args.drop_first());
        lemma_exprs_size_concat(part, spec_spread(args.drop_first()));
        lemma_exprs_size_single(args[0]);
    }
}

pub proof fn lemma_fill_bound_size(bound: Seq<SpecExpr>, args: Seq<SpecExpr>)
    ensures
        exprs_size(spec_fill_bound(bound, args).0) + exprs_size(spec_fill_bound(bound, args).1)
            <= exprs_size(bound) + exprs_size(args),
    decreases bound.len(),
{
    if bound.len() > 0 {
        lemma_exprs_size_first(bound);
        let (part, left) = match bound[0] {
            SpecExpr::Nil => if args.len() > 0 {
                (seq![args[0]], args.drop_first())
            } else {
                (seq![SpecExpr::Nil], args)
            },
            SpecExpr::ParenList(p) => spec_transfer(p, args),
            x => (seq![x], args),
        };
        match bound[0] {
            SpecExpr::Nil => {
                if args.len() > 0 {
                    lemma_exprs_size_first(args);
                    lemma_exprs_size_single(args[0]);
                } else {
                    lemma_exprs_size_single(SpecExpr::Nil);
                }
            },
            SpecExpr::ParenList(p) => {
                lemma_transfer_len(p, args);
            },
            x => {
                lemma_exprs_size_single(x);
            },
        }
        lemma_fill_bound_size(bound.drop_first(), left);
        lemma_exprs_size_concat(part, spec_fill_bound(bound.drop_first(), left).0);
    }
}

pub proof fn lemma_bind_fresh_size(args: Seq<SpecExpr>)
    ensures
        exprs_size(spec_bind_fresh(args)) <= exprs_size(args),
    decreases args.len(),
{
    if args.len() > 0 {
        lemma_exprs_size_first(args);
        match args[0] {
            SpecExpr::ParenList(p) => {
                lemma_transfer_len(p, args.drop_first());
                let (part, left) = spec_transfer(p, args.drop_first());
                lemma_bind_fresh_size(left);
                lemma_exprs_size_concat(part, spec_bind_fresh(left));
            },
            x => {
                lemma_bind_fresh_size(args.drop_first());
                lemma_exprs_size_concat(seq![x], spec_bind_fresh(args.drop_first()));
                lemma_exprs_size_single(x);
            },
        }
    }
}

/// Binding never makes the arguments larger than those it starts from.
pub proof fn lemma_bind_args_size(bound: Seq<SpecExpr>, args: Seq<SpecExpr>)
    ensures
        exprs_size(spec_bind_args(bound, args)) <= exprs_size(bound) + exprs_size(args),
{
    if bound.len() > 0 {
        let (filled, left) = spec_fill_bound(bound, args);
        lemma_fill_bound_size(bound, args);
        lemma_spread_size(left);
        lemma_exprs_size_concat(filled, spec_spread(left));
    } else {
        lemma_bind_fresh_size(args);
    }
}

/// The global bindings: names with their values, the first binding of a name
/// being the one that counts.
pub open spec fn spec_lookup(g: Seq<(Seq<char>, SpecValue)>, name: Seq<char>) -> Option<SpecValue>
    decreases g.len(),
{
    if g.len() == 0 {
        None
    } else if g[0].0 == name {
        Some(g[0].1)
    } else {
        spec_lookup(g.drop_first(), name)
    }
}

/// The `k`-th value from the end, as a number.
pub open spec fn arg_number(vals: Seq<SpecValue>, k: int) -> Result<u128, SpecVmError> {
    if vals.len() < k {
        Err(SpecVmError::MissingArgument)
    } else {
        match vals[vals.len() - k] {
            SpecValue::Number(n) => Ok(n),
            _ => Err(SpecVmError::NotNumber),
        }
    }
}

/// The `k`-th value from the end, as a string.
pub open spec fn arg_string(vals: Seq<SpecValue>, k: int) -> Result<Seq<char>, SpecVmError> {
    if vals.len() < k {
        Err(SpecVmError::MissingArgument)
    } else {
        match vals[vals.len() - k] {
            SpecValue::String(s) => Ok(s),
            _ => Err(SpecVmError::NotString),
        }
    }
}

/// The function bound to `name`.
pub open spec fn spec_bound_function(g: Seq<(Seq<char>, SpecValue)>, name: Seq<char>) -> Result<
    SpecValue,
    SpecVmError,
> {
    match spec_lookup(g, name) {
        None => Err(SpecVmError::NoBinding(name)),
        Some(SpecValue::Function(c)) => Ok(SpecValue::Function(c)),
        Some(_) => Err(SpecVmError::NotCallable),
    }
}

/// What a builtin other than `.` gives for its evaluated arguments. Each reads
/// its arguments from the end: the last one first.
pub open spec fn spec_builtin_values(
    g: Seq<(Seq<char>, SpecValue)>,
    b: Builtin,
    vals: Seq<SpecValue>,
) -> Result<SpecValue, SpecVmError> {
    match b {
        Builtin::Add => match arg_number(vals, 1) {
            Err(e) => Err(e),
            Ok(v1) => match arg_number(vals, 2) {
                Err(e) => Err(e),
                Ok(v2) => if v1 + v2 <= u128::MAX {
                    Ok(SpecValue::Number((v1 + v2) as u128))
                } else {
                    Err(SpecVmError::Overflow)
                },
            },
        },
        Builtin::Percent | Builtin::GetSymbolBind => match arg_string(vals, 1) {
            Err(e) => Err(e),
            Ok(name) => spec_bound_function(g, name),
        },
        Builtin::X2 => match arg_number(vals, 1) {
            Err(e) => Err(e),
            Ok(v) => if 2 * v <= u128::MAX {
                Ok(SpecValue::Number((2 * v) as u128))
            } else {
                Err(SpecVmError::Overflow)
            },
        },
        Builtin::ToInt => match arg_number(vals, 1) {
            Err(e) => Err(e),
            Ok(radix) => match arg_string(vals, 2) {
                Err(e) => Err(e),
                Ok(s) => if 2 <= (radix as u32) && (radix as u32) <= 36 {
                    match spec_from_str_radix(s, (radix as u32) as nat) {
                        Some(n) => Ok(SpecValue::Number(n)),
                        None => Err(SpecVmError::InvalidNumber),
                    }
                } else {
                    Err(SpecVmError::InvalidRadix)
                },
            },
        },
        Builtin::Dot | Builtin::MapEach => Err(SpecVmError::Malformed),
    }
}

/// A number or string value as the literal that writes it; other values have
/// no literal.
pub open spec fn literal_of(v: SpecValue) -> Option<SpecExpr> {
    match v {
        SpecValue::Number(n) => Some(SpecExpr::Literal(SpecLiteral::Number(n))),
        SpecValue::String(s) => Some(SpecExpr::Literal(SpecLiteral::String(s))),
        _ => None,
    }
}

/// The values of a sequence of results, in order, or the first error among them.
pub open spec fn all_ok(rs: Seq<Result<SpecValue, SpecVmError>>) -> Result<
    Seq<SpecValue>,
    SpecVmError,
>
    decreases rs.len(),
{
    if rs.len() == 0 {
        Ok(Seq::empty())
    } else {
        match rs[0] {
            Err(e) => Err(e),
            Ok(v) => match all_ok(rs.drop_first()) {
                Ok(vs) => Ok(seq![v] + vs),
                Err(e) => Err(e),
            },
        }
    }
}

/// A sequence holding one item is as large as the item.
pub proof fn lemma_exprs_size_single_all()
    ensures
        forall|x: SpecExpr| #[trigger] exprs_size(seq![x]) == expr_size(x),
{
    assert forall|x: SpecExpr| #[trigger] exprs_size(seq![x]) == expr_size(x) by {
        lemma_exprs_size_single(x);
    }
}

/// The expression that `a . b` evaluates: when `b` is a call, the call with
/// `a` put before its arguments; otherwise the call `b(a)`.
pub open spec fn spec_dot_target(a: SpecExpr, b: SpecExpr) -> SpecExpr {
    match b {
        SpecExpr::Call(c, args) => SpecExpr::Call(c, seq![a] + args),
        x => SpecExpr::Call(Box::new(x), seq![a]),
    }
}

/// What evaluating `e` gives: a variable gives its binding, a number or string
/// literal its value, an array the values of its items; everything else runs as
/// a call.
pub open spec fn spec_eval(g: Seq<(Seq<char>, SpecValue)>, e: SpecExpr) -> Result<
    SpecValue,
    SpecVmError,
>
    decreases expr_size(e), 5int,
{
    match e {
        SpecExpr::Variable(s) => match spec_lookup(g, s) {
            Some(v) => Ok(v),
            None => Err(SpecVmError::NotDefined(s)),
        },
        SpecExpr::Literal(SpecLiteral::Number(n)) => Ok(SpecValue::Number(n)),
        SpecExpr::Literal(SpecLiteral::String(s)) => Ok(SpecValue::String(s)),
        SpecExpr::Literal(_) => Err(SpecVmError::UnsupportedLiteral),
        SpecExpr::Array(a) => match spec_eval_all(g, a) {
            Ok(vs) => Ok(SpecValue::Array(vs)),
            Err(err) => Err(err),
        },
        _ => spec_run(g, e),
    }
}

/// What running `e` as a call gives: the callee is evaluated to a function,
/// which is then applied to the (unevaluated) arguments.
pub open spec fn spec_run(g: Seq<(Seq<char>, SpecValue)>, e: SpecExpr) -> Result<
    SpecValue,
    SpecVmError,
>
    decreases expr_size(e), 4int,
{
    match e {
        SpecExpr::Call(callie, args) => spec_call(g, *callie, args),
        _ => Err(SpecVmError::CannotRun),
    }
}

/// What calling `callie` with `args` gives: the callee is evaluated to a
/// function, which is then applied to the (unevaluated) arguments.
pub open spec fn spec_call(g: Seq<(Seq<char>, SpecValue)>, callie: SpecExpr, args: Seq<SpecExpr>) -> Result<
    SpecValue,
    SpecVmError,
>
    decreases expr_size(callie) + exprs_size(args), 6int,
{
    match spec_eval(g, callie) {
        Ok(SpecValue::Function(c)) => if exprs_size(c.binded_args) < expr_size(callie) {
            spec_apply(g, c, args)
        } else {
            Err(SpecVmError::Malformed)
        },
        Ok(_) => Err(SpecVmError::NotCallable),
        Err(err) => Err(err),
    }
}

/// The values of a sequence of expressions, evaluated in order; the first
/// error stops the evaluation.
pub open spec fn spec_eval_all(g: Seq<(Seq<char>, SpecValue)>, es: Seq<SpecExpr>) -> Result<
    Seq<SpecValue>,
    SpecVmError,
>
    decreases exprs_size(es), 6int,
{
    if es.len() == 0 {
        Ok(Seq::empty())
    } else {
        proof {
            lemma_exprs_size_first(es);
        }
        match spec_eval(g, es[0]) {
            Err(err) => Err(err),
            Ok(v) => match spec_eval_all(g, es.subrange(1, es.len() as int)) {
                Err(err) => Err(err),
                Ok(vs) => Ok(seq![v] + vs),
            },
        }
    }
}

/// The values of the arguments of a builtin, parameter sets spread out.
pub open spec fn spec_resolve(g: Seq<(Seq<char>, SpecValue)>, args: Seq<SpecExpr>) -> Result<
    Seq<SpecValue>,
    SpecVmError,
>
    decreases exprs_size(args), 7int,
{
    proof {
        lemma_spread_size(args);
    }
    spec_eval_all(g, spec_spread(args))
}

/// What calling `f` with each item of `items` gives, item by item: an item is
/// handed to the call as the literal that writes it, and an item that has no
/// literal gives `UnsupportedLiteral`.
pub open spec fn map_results(g: Seq<(Seq<char>, SpecValue)>, f: SpecExpr, items: Seq<SpecValue>) -> Seq<
    Result<SpecValue, SpecVmError>,
>
    decreases expr_size(f) + 1, 7int,
{
    proof {
        lemma_exprs_size_single_all();
    }
    Seq::new(
        items.len(),
        |i: int|
            match literal_of(items[i]) {
                Some(lit) => spec_call(g, f, seq![lit]),
                None => Err(SpecVmError::UnsupportedLiteral),
            },
    )
}

/// What the builtin `b` gives for the (unevaluated) arguments `args`.
pub open spec fn spec_builtin(g: Seq<(Seq<char>, SpecValue)>, b: Builtin, args: Seq<SpecExpr>) -> Result<
    SpecValue,
    SpecVmError,
>
    decreases exprs_size(args), 8int,
{
    match b {
        Builtin::Dot => if args.len() < 2 {
            Err(SpecVmError::MissingArgument)
        } else {
            proof {
                lemma_exprs_size_last_two(args);
                let b1 = args[args.len() - 1];
                let a1 = args[args.len() - 2];
                lemma_exprs_size_single(a1);
                if let SpecExpr::Call(c, cargs) = b1 {
                    lemma_exprs_size_concat(seq![a1], cargs);
                }
            }
            match args[args.len() - 1] {
                SpecExpr::Call(_, _) => spec_eval(
                    g,
                    spec_dot_target(args[args.len() - 2], args[args.len() - 1]),
                ),
                b1 => spec_call(g, b1, seq![args[args.len() - 2]]),
            }
        },
        Builtin::MapEach => {
            proof {
                lemma_spread_size(args);
                lemma_exprs_size_single_all();
            }
            let flat = spec_spread(args);
            match spec_resolve(g, args) {
                Err(err) => Err(err),
                Ok(vals) => if vals.len() < 2 || flat.len() < 2 {
                    Err(SpecVmError::MissingArgument)
                } else {
                    proof {
                        lemma_exprs_size_last_two(flat);
                    }
                    let f = flat[flat.len() - 1];
                    match (vals[vals.len() - 1], vals[vals.len() - 2]) {
                        (SpecValue::Function(_), SpecValue::Array(items)) => match all_ok(
                            map_results(g, f, items),
                        ) {
                            Ok(vs) => Ok(SpecValue::Array(vs)),
                            Err(err) => Err(err),
                        },
                        (SpecValue::Function(_), _) => Err(SpecVmError::NotArray),
                        _ => Err(SpecVmError::NotCallable),
                    }
                },
            }
        },
        _ => match spec_resolve(g, args) {
            Err(err) => Err(err),
            Ok(vals) => spec_builtin_values(g, b, vals),
        },
    }
}

/// What calling the function `c` with `args` gives: the arguments are bound;
/// if the number of them that are filled does not fit the function, the
/// function with those arguments bound (a partial application); otherwise what
/// its builtin gives for them.
pub open spec fn spec_apply(g: Seq<(Seq<char>, SpecValue)>, c: SpecCallable, args: Seq<SpecExpr>) -> Result<
    SpecValue,
    SpecVmError,
>
    decreases exprs_size(c.binded_args) + exprs_size(args), 9int,
{
    let nb = spec_bind_args(c.binded_args, args);
    if !spec_args_fit(c.expected_args, count_filled(nb) as int) {
        Ok(
            SpecValue::Function(
                SpecCallable {
                    id: c.id,
                    expected_args: c.expected_args,
                    target: c.target,
                    binded_args: nb,
                },
            ),
        )
    } else {
        proof {
            lemma_bind_args_size(c.binded_args, args);
        }
        spec_builtin(g, c.target, nb)
    }
}

/// An argument that a call takes as it is: neither an empty slot nor a
/// parameter set.
pub open spec fn plain_arg(e: SpecExpr) -> bool {
    !(e is Nil) && !(e is ParenList)
}

/// A function value for the builtin `b` with `n` parameters and nothing bound.
pub open spec fn unbound_fn(v: SpecValue, b: Builtin, n: usize) -> bool {
    v matches SpecValue::Function(c) && c.target == b && c.expected_args == (n, n)
        && c.binded_args.len() == 0
}

proof fn lemma_bind_fresh_plain(s: Seq<SpecExpr>)
    requires
        forall|i: int| 0 <= i < s.len() ==> plain_arg(#[trigger] s[i]),
    ensures
        spec_bind_fresh(s) == s,
        count_filled(s) == s.len(),
    decreases s.len(),
{
    if s.len() > 0 {
        assert(plain_arg(s[0]));
        assert forall|i: int| 0 <= i < s.drop_first().len() implies plain_arg(
            #[trigger] s.drop_first()[i],
        ) by {
            assert(s.drop_first()[i] == s[i + 1]);
        }
        lemma_bind_fresh_plain(s.drop_first());
        assert(seq![s[0]] + s.drop_first() =~= s);
    }
}

/// Law (the `.` function): when `.` is bound to its builtin, `a.b` evaluates
/// as `b(a)`: `a.f` is `f(a)`, and `a.f(x)` is `f(a, x)`.
pub proof fn lemma_dot_call(g: Seq<(Seq<char>, SpecValue)>, a: SpecExpr, b: SpecExpr)
    requires
        spec_lookup(g, "."@) matches Some(v) && unbound_fn(v, Builtin::Dot, 2),
        plain_arg(a),
        plain_arg(b),
    ensures
        spec_run(g, SpecExpr::Call(Box::new(SpecExpr::Variable("."@)), seq![a, b])) == spec_eval(
            g,
            spec_dot_target(a, b),
        ),
        b matches SpecExpr::Call(f, xs) ==> spec_run(
            g,
            SpecExpr::Call(Box::new(SpecExpr::Variable("."@)), seq![a, b]),
        ) == spec_eval(g, SpecExpr::Call(f, seq![a] + xs)),
        !(b is Call) ==> spec_run(g, SpecExpr::Call(Box::new(SpecExpr::Variable("."@)), seq![a, b]))
            == spec_eval(g, SpecExpr::Call(Box::new(b), seq![a])),
{
    let args = seq![a, b];
    lemma_bind_fresh_plain(args);
    let c = spec_lookup(g, "."@).unwrap()->Function_0;
    assert(exprs_size(c.binded_args) == 0);
    assert(spec_bind_args(c.binded_args, args) == args);
    let callee = SpecExpr::Variable("."@);
    assert(spec_eval(g, callee) == Ok::<SpecValue, SpecVmError>(SpecValue::Function(c)));
    assert(exprs_size(c.binded_args) < expr_size(callee));
    assert(spec_apply(g, c, args) == spec_builtin(g, Builtin::Dot, args));
    assert(args[args.len() - 2] == a && args[args.len() - 1] == b);
    assert(spec_builtin(g, Builtin::Dot, args) == spec_eval(g, spec_dot_target(a, b)));
}

/// Law (partial application): calling a two-parameter builtin with one
/// argument gives the function with that argument bound; calling that with a
/// second argument is calling the builtin with both.
pub proof fn lemma_partial_application(
    g: Seq<(Seq<char>, SpecValue)>,
    name: Seq<char>,
    b: Builtin,
    x: SpecExpr,
    y: SpecExpr,
)
    requires
        spec_lookup(g, name) matches Some(v) && unbound_fn(v, b, 2),
        plain_arg(x),
        plain_arg(y),
    ensures
        ({
            let c = spec_lookup(g, name).unwrap()->Function_0;
            spec_run(g, SpecExpr::Call(Box::new(SpecExpr::Variable(name)), seq![x])) == Ok::<
                SpecValue,
                SpecVmError,
            >(
                SpecValue::Function(
                    SpecCallable {
                        id: c.id,
                        expected_args: c.expected_args,
                        target: c.target,
                        binded_args: seq![x],
                    },
                ),
            )
        }),
        spec_run(
            g,
            SpecExpr::Call(
                Box::new(SpecExpr::Call(Box::new(SpecExpr::Variable(name)), seq![x])),
                seq![y],
            ),
        ) == spec_run(g, SpecExpr::Call(Box::new(SpecExpr::Variable(name)), seq![x, y])),
{
    let c = spec_lookup(g, name).unwrap()->Function_0;
    assert(exprs_size(c.binded_args) == 0);
    lemma_bind_fresh_plain(seq![x]);
    lemma_bind_fresh_plain(seq![x, y]);
    assert(seq![x].drop_first() =~= Seq::<SpecExpr>::empty());
    let inner = SpecExpr::Call(Box::new(SpecExpr::Variable(name)), seq![x]);
    let partial = SpecCallable {
        id: c.id,
        expected_args: c.expected_args,
        target: c.target,
        binded_args: seq![x],
    };
    assert(spec_run(g, inner) == Ok::<SpecValue, SpecVmError>(SpecValue::Function(partial)));
    assert(spec_eval(g, inner) == spec_run(g, inner));
    lemma_exprs_size_single(x);
    assert(exprs_size(seq![x]) < expr_size(inner));
    // Binding `y` to the function that holds `x`.
    assert(seq![y].drop_first() =~= Seq::<SpecExpr>::empty());
    assert(spec_fill_bound(Seq::<SpecExpr>::empty(), seq![y]) == (Seq::<SpecExpr>::empty(), seq![y]));
    assert(spec_fill_bound(seq![x], seq![y]) == (seq![x], seq![y])) by {
        assert(seq![x] + Seq::<SpecExpr>::empty() =~= seq![x]);
    }
    assert(spec_spread(Seq::<SpecExpr>::empty()) == Seq::<SpecExpr>::empty());
    assert(spec_spread(seq![y]) == seq![y]) by {
        assert(seq![y] + Seq::<SpecExpr>::empty() =~= seq![y]);
    }
    assert(spec_bind_args(seq![x], seq![y]) == seq![x, y]) by {
        assert(seq![x] + seq![y] =~= seq![x, y]);
    }
}

proof fn lemma_transfer_no_fill(xs: Seq<SpecExpr>)
    ensures
        spec_transfer(xs, Seq::empty()) == (xs, Seq::<SpecExpr>::empty()),
    decreases xs.len(),
{
    if xs.len() > 0 {
        lemma_transfer_no_fill(xs.drop_first());
        assert(seq![xs[0]] + xs.drop_first() =~= xs);
    }
}

proof fn lemma_bind_fresh_flat(xs: Seq<SpecExpr>)
    requires
        forall|i: int| 0 <= i < xs.len() ==> !(#[trigger] xs[i] is ParenList),
    ensures
        spec_bind_fresh(xs) == xs,
    decreases xs.len(),
{
    if xs.len() > 0 {
        assert(!(xs[0] is ParenList));
        assert forall|i: int| 0 <= i < xs.drop_first().len() implies !(#[trigger] xs.drop_first()[i] is ParenList) by {
            assert(xs.drop_first()[i] == xs[i + 1]);
        }
        lemma_bind_fresh_flat(xs.drop_first());
        assert(seq![xs[0]] + xs.drop_first() =~= xs);
    }
}

/// Law (parameter sets): a parameter set passed as the only argument of a
/// function with nothing bound fills the function's parameters with its items:
/// `f((x, y, ..))` is `f(x, y, ..)`, when no item is itself a parameter set.
pub proof fn lemma_parameter_set_spreads(
    g: Seq<(Seq<char>, SpecValue)>,
    name: Seq<char>,
    xs: Seq<SpecExpr>,
)
    requires
        spec_lookup(g, name) matches Some(SpecValue::Function(c)) && c.binded_args.len() == 0,
        forall|i: int| 0 <= i < xs.len() ==> !(#[trigger] xs[i] is ParenList),
    ensures
        spec_run(
            g,
            SpecExpr::Call(Box::new(SpecExpr::Variable(name)), seq![SpecExpr::ParenList(xs)]),
        ) == spec_run(g, SpecExpr::Call(Box::new(SpecExpr::Variable(name)), xs)),
{
    let c = spec_lookup(g, name).unwrap()->Function_0;
    assert(exprs_size(c.binded_args) == 0);
    let one = seq![SpecExpr::ParenList(xs)];
    lemma_transfer_no_fill(xs);
    assert(one.drop_first() =~= Seq::<SpecExpr>::empty());
    assert(spec_bind_fresh(Seq::<SpecExpr>::empty()) == Seq::<SpecExpr>::empty());
    assert(spec_bind_fresh(one) == xs) by {
        assert(xs + Seq::<SpecExpr>::empty() =~= xs);
    }
    lemma_bind_fresh_flat(xs);
    assert(spec_bind_args(c.binded_args, one) == spec_bind_args(c.binded_args, xs));
}

/// A value that evaluation gives holds fewer bound arguments than the
/// expression it came from has nodes, when every binding is a function with
/// nothing bound.
proof fn lemma_eval_size(g: Seq<(Seq<char>, SpecValue)>, e: SpecExpr)
    requires
        all_unbound(g),
    ensures
        spec_eval(g, e) matches Ok(v) ==> value_fn_size(v) < expr_size(e),
    decreases expr_size(e), 5int,
{
    match e {
        SpecExpr::Variable(s) => {
            lemma_lookup_unbound(g, s);
        },
        SpecExpr::Literal(_) => {},
        SpecExpr::Array(_) => {},
        _ => {
            lemma_run_size(g, e);
        },
    }
}

proof fn lemma_run_size(g: Seq<(Seq<char>, SpecValue)>, e: SpecExpr)
    requires
        all_unbound(g),
    ensures
        spec_run(g, e) matches Ok(v) ==> value_fn_size(v) < expr_size(e),
    decreases expr_size(e), 4int,
{
    if let SpecExpr::Call(callie, args) = e {
        lemma_call_size(g, *callie, args);
    }
}

proof fn lemma_call_size(g: Seq<(Seq<char>, SpecValue)>, callie: SpecExpr, args: Seq<SpecExpr>)
    requires
        all_unbound(g),
    ensures
        spec_call(g, callie, args) matches Ok(v) ==> value_fn_size(v) < expr_size(callie)
            + exprs_size(args),
    decreases expr_size(callie) + exprs_size(args), 6int,
{
    if let Ok(SpecValue::Function(c)) = spec_eval(g, callie) {
        if exprs_size(c.binded_args) < expr_size(callie) {
            lemma_apply_size(g, c, args);
        }
    }
}

proof fn lemma_apply_size(g: Seq<(Seq<char>, SpecValue)>, c: SpecCallable, args: Seq<SpecExpr>)
    requires
        all_unbound(g),
    ensures
        spec_apply(g, c, args) matches Ok(v) ==> value_fn_size(v) <= exprs_size(c.binded_args)
            + exprs_size(args),
    decreases exprs_size(c.binded_args) + exprs_size(args), 9int,
{
    let nb = spec_bind_args(c.binded_args, args);
    lemma_bind_args_size(c.binded_args, args);
    if spec_args_fit(c.expected_args, count_filled(nb) as int) {
        lemma_builtin_size(g, c.target, nb);
    }
}

proof fn lemma_builtin_size(g: Seq<(Seq<char>, SpecValue)>, b: Builtin, args: Seq<SpecExpr>)
    requires
        all_unbound(g),
    ensures
        spec_builtin(g, b, args) matches Ok(v) ==> value_fn_size(v) <= exprs_size(args),
    decreases exprs_size(args), 8int,
{
    match b {
        Builtin::Dot => {
            if args.len() >= 2 {
                lemma_exprs_size_last_two(args);
                let b1 = args[args.len() - 1];
                let a1 = args[args.len() - 2];
                lemma_exprs_size_single(a1);
                match b1 {
                    SpecExpr::Call(c, cargs) => {
                        lemma_exprs_size_concat(seq![a1], cargs);
                        lemma_eval_size(g, spec_dot_target(a1, b1));
                    },
                    _ => {
                        lemma_call_size(g, b1, seq![a1]);
                    },
                }
            }
        },
        Builtin::MapEach => {},
        _ => {
            if let Ok(vals) = spec_resolve(g, args) {
                if let Ok(name) = arg_string(vals, 1) {
                    lemma_lookup_unbound(g, name);
                }
            }
        },
    }
}

/// Law (running an expression): an expression that is not a call cannot be
/// run; a call evaluates its callee, gives that evaluation's error, or
/// `NotCallable` when the callee is not a function, and otherwise applies the
/// function to the arguments as they are written (unevaluated). Stated for
/// bindings that are all functions with nothing bound, as a machine's are.
pub proof fn lemma_run_expression(g: Seq<(Seq<char>, SpecValue)>, e: SpecExpr)
    requires
        all_unbound(g),
    ensures
        !(e is Call) ==> spec_run(g, e) == Err::<SpecValue, SpecVmError>(SpecVmError::CannotRun),
        e matches SpecExpr::Call(callie, args) ==> spec_run(g, e) == match spec_eval(g, *callie) {
            Err(err) => Err(err),
            Ok(SpecValue::Function(c)) => spec_apply(g, c, args),
            Ok(_) => Err(SpecVmError::NotCallable),
        },
{
    if let SpecExpr::Call(callie, args) = e {
        lemma_eval_size(g, *callie);
    }
}

proof fn lemma_eval_all_items(g: Seq<(Seq<char>, SpecValue)>, es: Seq<SpecExpr>)
    ensures
        spec_eval_all(g, es) is Ok <==> forall|i: int| 0 <= i < es.len() ==> #[trigger] spec_eval(g, es[i]) is Ok,
        spec_eval_all(g, es) matches Ok(vs) ==> {
            &&& vs.len() == es.len()
            &&& forall|i: int| 0 <= i < es.len() ==> #[trigger] spec_eval(g, es[i]) == Ok::<SpecValue, SpecVmError>(vs[i])
        },
        forall|k: int|
            0 <= k < es.len() && #[trigger] spec_eval(g, es[k]) is Err && (forall|j: int| 0 <= j < k ==> #[trigger] spec_eval(g, es[j]) is Ok)
                ==> spec_eval_all(g, es) == Err::<Seq<SpecValue>, SpecVmError>(spec_eval(g, es[k])->Err_0),
    decreases es.len(),
{
    if es.len() > 0 {
        let rest = es.subrange(1, es.len() as int);
        lemma_eval_all_items(g, rest);
        assert forall|i: int| 0 <= i < rest.len() implies rest[i] == es[i + 1] by {}
        if spec_eval(g, es[0]) is Ok {
            assert((forall|i: int| 0 <= i < es.len() ==> #[trigger] spec_eval(g, es[i]) is Ok) ==> (forall|i: int|
                0 <= i < rest.len() ==> #[trigger] spec_eval(g, rest[i]) is Ok)) by {
                if forall|i: int| 0 <= i < es.len() ==> #[trigger] spec_eval(g, es[i]) is Ok {
                    assert forall|i: int| 0 <= i < rest.len() implies #[trigger] spec_eval(g, rest[i]) is Ok by {
                        assert(spec_eval(g, es[i + 1]) is Ok);
                    }
                }
            }
            if spec_eval_all(g, rest) is Ok {
                assert forall|i: int| 0 <= i < es.len() implies #[trigger] spec_eval(g, es[i]) is Ok by {
                    if i > 0 {
                        assert(spec_eval(g, rest[i - 1]) is Ok);
                    }
                }
                let vs = spec_eval_all(g, es)->Ok_0;
                let v0 = spec_eval(g, es[0])->Ok_0;
                let vr = spec_eval_all(g, rest)->Ok_0;
                assert(vs == seq![v0] + vr);
                assert forall|i: int| 0 <= i < es.len() implies #[trigger] spec_eval(g, es[i])
                    == Ok::<SpecValue, SpecVmError>(vs[i]) by {
                    if i > 0 {
                        assert(spec_eval(g, rest[i - 1]) == Ok::<SpecValue, SpecVmError>(vr[i - 1]));
                    }
                }
            }
            assert forall|k: int|
                0 <= k < es.len() && #[trigger] spec_eval(g, es[k]) is Err && (forall|j: int| 0 <= j < k ==> #[trigger] spec_eval(g, es[j]) is Ok)
                implies spec_eval_all(g, es) == Err::<Seq<SpecValue>, SpecVmError>(spec_eval(g, es[k])->Err_0) by {
                assert(k > 0);
                assert(spec_eval(g, rest[k - 1]) is Err);
                assert forall|j: int| 0 <= j < k - 1 implies #[trigger] spec_eval(g, rest[j]) is Ok by {
                    assert(spec_eval(g, es[j + 1]) is Ok);
                }
            }
        } else {
            assert(!(spec_eval(g, es[0]) is Ok));
        }
    }
}

/// Law (evaluating an array): an array evaluates to an array exactly when each
/// of its items evaluates; then the values are the items' values, in order.
/// Otherwise the error is that of the first item that fails.
pub proof fn lemma_eval_array(g: Seq<(Seq<char>, SpecValue)>, es: Seq<SpecExpr>)
    ensures
        spec_eval(g, SpecExpr::Array(es)) is Ok <==> forall|i: int|
            0 <= i < es.len() ==> #[trigger] spec_eval(g, es[i]) is Ok,
        spec_eval(g, SpecExpr::Array(es)) matches Ok(v) ==> {
            &&& v matches SpecValue::Array(vs)
            &&& vs.len() == es.len()
            &&& forall|i: int| 0 <= i < es.len() ==> #[trigger] spec_eval(g, es[i]) == Ok::<SpecValue, SpecVmError>(vs[i])
        },
        forall|k: int|
            0 <= k < es.len() && #[trigger] spec_eval(g, es[k]) is Err && (forall|j: int| 0 <= j < k ==> #[trigger] spec_eval(g, es[j]) is Ok)
                ==> spec_eval(g, SpecExpr::Array(es)) == spec_eval(g, es[k]),
{
    lemma_eval_all_items(g, es);
}

proof fn lemma_spread_flat(xs: Seq<SpecExpr>)
    requires
        forall|i: int| 0 <= i < xs.len() ==> !(#[trigger] xs[i] is ParenList),
    ensures
        spec_spread(xs) == xs,
    decreases xs.len(),
{
    if xs.len() > 0 {
        assert(!(xs[0] is ParenList));
        assert forall|i: int| 0 <= i < xs.drop_first().len() implies !(#[trigger] xs.drop_first()[i] is ParenList) by {
            assert(xs.drop_first()[i] == xs[i + 1]);
        }
        lemma_spread_flat(xs.drop_first());
        assert(seq![xs[0]] + xs.drop_first() =~= xs);
    }
}

/// Calling a builtin bound under `name` with as many plain arguments as it
/// takes runs the builtin on them.
proof fn lemma_full_call(
    g: Seq<(Seq<char>, SpecValue)>,
    name: Seq<char>,
    b: Builtin,
    args: Seq<SpecExpr>,
)
    requires
        spec_lookup(g, name) matches Some(v) && unbound_fn(v, b, args.len() as usize),
        args.len() <= usize::MAX,
        forall|i: int| 0 <= i < args.len() ==> plain_arg(#[trigger] args[i]),
    ensures
        spec_eval(g, SpecExpr::Call(Box::new(SpecExpr::Variable(name)), args)) == spec_builtin(
            g,
            b,
            args,
        ),
        spec_spread(args) == args,
{
    lemma_bind_fresh_plain(args);
    assert forall|i: int| 0 <= i < args.len() implies !(#[trigger] args[i] is ParenList) by {
        assert(plain_arg(args[i]));
    }
    lemma_spread_flat(args);
    let c = spec_lookup(g, name).unwrap()->Function_0;
    assert(exprs_size(c.binded_args) == 0);
    assert(spec_bind_args(c.binded_args, args) == args);
    let callee = SpecExpr::Variable(name);
    assert(spec_eval(g, callee) == Ok::<SpecValue, SpecVmError>(SpecValue::Function(c)));
    assert(exprs_size(c.binded_args) < expr_size(callee));
    assert(spec_args_fit(c.expected_args, count_filled(args) as int));
    assert(spec_apply(g, c, args) == spec_builtin(g, c.target, args));
    assert(spec_call(g, callee, args) == spec_apply(g, c, args));
    let e = SpecExpr::Call(Box::new(callee), args);
    assert(spec_run(g, e) == spec_call(g, callee, args));
    assert(spec_eval(g, e) == spec_run(g, e));
}

/// The number literal `n`.
pub open spec fn num_lit(n: u128) -> SpecExpr {
    SpecExpr::Literal(SpecLiteral::Number(n))
}

/// Law (`+`): adding two numbers gives their arithmetic sum, or `Overflow` when
/// the sum does not fit in a `u128`.
pub proof fn lemma_add_numbers(g: Seq<(Seq<char>, SpecValue)>, x: u128, y: u128)
    requires
        spec_lookup(g, "+"@) matches Some(v) && unbound_fn(v, Builtin::Add, 2),
    ensures
        spec_eval(g, SpecExpr::Call(Box::new(SpecExpr::Variable("+"@)), seq![num_lit(x), num_lit(y)]))
            == if x + y <= u128::MAX {
            Ok::<SpecValue, SpecVmError>(SpecValue::Number((x + y) as u128))
        } else {
            Err(SpecVmError::Overflow)
        },
{
    let args = seq![num_lit(x), num_lit(y)];
    lemma_full_call(g, "+"@, Builtin::Add, args);
    lemma_eval_all_items(g, args);
    assert(spec_eval(g, args[0]) is Ok && spec_eval(g, args[1]) is Ok);
}

/// Law (`x2`): doubling a number gives twice it, or `Overflow` when that does
/// not fit in a `u128`.
pub proof fn lemma_double_number(g: Seq<(Seq<char>, SpecValue)>, x: u128)
    requires
        spec_lookup(g, "x2"@) matches Some(v) && unbound_fn(v, Builtin::X2, 1),
    ensures
        spec_eval(g, SpecExpr::Call(Box::new(SpecExpr::Variable("x2"@)), seq![num_lit(x)]))
            == if 2 * x <= u128::MAX {
            Ok::<SpecValue, SpecVmError>(SpecValue::Number((2 * x) as u128))
        } else {
            Err(SpecVmError::Overflow)
        },
{
    let args = seq![num_lit(x)];
    lemma_full_call(g, "x2"@, Builtin::X2, args);
    lemma_eval_all_items(g, args);
    assert(spec_eval(g, args[0]) is Ok);
}

/// Law (`to_int`): reading a string in a base gives what `from_str_radix` reads
/// in that base (the base taken as a `u32`, as the builtin converts it), an
/// `InvalidNumber` error when it reads nothing, and `InvalidRadix` for a base
/// outside 2 to 36.
pub proof fn lemma_to_int_string(g: Seq<(Seq<char>, SpecValue)>, s: Seq<char>, radix: u128)
    requires
        spec_lookup(g, "to_int"@) matches Some(v) && unbound_fn(v, Builtin::ToInt, 2),
    ensures
        spec_eval(
            g,
            SpecExpr::Call(
                Box::new(SpecExpr::Variable("to_int"@)),
                seq![SpecExpr::Literal(SpecLiteral::String(s)), num_lit(radix)],
            ),
        ) == if 2 <= (radix as u32) && (radix as u32) <= 36 {
            match spec_from_str_radix(s, (radix as u32) as nat) {
                Some(n) => Ok::<SpecValue, SpecVmError>(SpecValue::Number(n)),
                None => Err(SpecVmError::InvalidNumber),
            }
        } else {
            Err(SpecVmError::InvalidRadix)
        },
{
    let args = seq![SpecExpr::Literal(SpecLiteral::String(s)), num_lit(radix)];
    lemma_full_call(g, "to_int"@, Builtin::ToInt, args);
    lemma_eval_all_items(g, args);
    assert(spec_eval(g, args[0]) is Ok && spec_eval(g, args[1]) is Ok);
}

} // verus!
