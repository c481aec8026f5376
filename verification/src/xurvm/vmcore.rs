//! The machine: global bindings and the evaluation of expressions.
use super::semantics::{
    arg_number, arg_string, expr_size, exprs_size, lemma_exprs_size_concat, lemma_exprs_size_first,
    lemma_exprs_size_last_two, lemma_exprs_size_single, lemma_spread_size, spec_builtin,
    spec_builtin_values, spec_dot_target, spec_eval, spec_eval_all, spec_lookup, spec_resolve,
    spec_run, spec_call, all_ok, map_results, lemma_exprs_size_single_all, literal_of,
};
use super::var::{
    is_unbound_function, spec_create_fn, to_deque, value_fn_size, values_view, Builtin, Callable,
    SpecValue, SpecVmError, Value, VmError,
};
use crate::ast::value::{
    copy_expr, copy_exprs, exprs_view, Expression, LiteralValue, SpecExpr, SpecStatement, Statement,
};
use std::rc::Rc;
use crate::lexer::chars::chars_of;
use crate::lexer::numeric::from_str_radix;
use vstd::prelude::*;

verus! {

/// Where values are looked up and expressions evaluated.
pub trait Enviroment {
    /// The global bindings, first binding of a name first.
    spec fn bindings(&self) -> Seq<(Seq<char>, SpecValue)>;

    /// The value bound to `name`.
    fn get_value(&self, name: &str) -> (r: Option<&Value>)
        ensures
            match spec_lookup(self.bindings(), name@) {
                Some(v) => r matches Some(x) && x@ == v,
                None => r is None,
            },
    ;

    /// The value of an expression.
    fn resolve_expression(&mut self, ex: Expression) -> (r: Result<Value, VmError>)
        ensures
            final(self).bindings() == old(self).bindings(),
            match spec_eval(old(self).bindings(), ex@) {
                Ok(v) => r matches Ok(x) && x@ == v,
                Err(e) => r matches Err(x) && x@ == e,
            },
    ;

    /// The values of the arguments of a builtin, parameter sets spread out.
    fn resolve_args(&mut self, args: Vec<Expression>) -> (r: Result<Vec<Value>, VmError>)
        ensures
            final(self).bindings() == old(self).bindings(),
            match spec_resolve(old(self).bindings(), exprs_view(args@)) {
                Ok(vs) => r matches Ok(x) && values_view(x@) == vs,
                Err(e) => r matches Err(x) && x@ == e,
            },
    ;
}

/// The global bindings after binding `name` to `v`: the first binding of
/// `name` is replaced, or the binding is added at the end when there is none.
pub open spec fn spec_insert(g: Seq<(Seq<char>, SpecValue)>, name: Seq<char>, v: SpecValue) -> Seq<
    (Seq<char>, SpecValue),
>
    decreases g.len(),
{
    if g.len() == 0 {
        seq![(name, v)]
    } else if g[0].0 == name {
        seq![(name, v)] + g.drop_first()
    } else {
        seq![g[0]] + spec_insert(g.drop_first(), name, v)
    }
}

/// Law (read after write): after binding `name` to `v`, looking `name` up
/// gives `v`, and looking up any other name gives what it gave before.
pub proof fn lemma_lookup_insert(
    g: Seq<(Seq<char>, SpecValue)>,
    name: Seq<char>,
    v: SpecValue,
    other: Seq<char>,
)
    ensures
        spec_lookup(spec_insert(g, name, v), name) == Some(v),
        other != name ==> spec_lookup(spec_insert(g, name, v), other) == spec_lookup(g, other),
    decreases g.len(),
{
    if g.len() > 0 && g[0].0 != name {
        lemma_lookup_insert(g.drop_first(), name, v, other);
        let r = spec_insert(g, name, v);
        assert(r[0] == g[0]);
        assert(r.drop_first() =~= spec_insert(g.drop_first(), name, v));
    } else if g.len() > 0 {
        let r = spec_insert(g, name, v);
        assert(r[0] == (name, v));
        assert(r.drop_first() =~= g.drop_first());
    } else {
        let r = spec_insert(g, name, v);
        assert(r[0] == (name, v));
        assert(r.drop_first() =~= Seq::<(Seq<char>, SpecValue)>::empty());
        assert(spec_lookup(r.drop_first(), other) is None);
    }
}

/// Binding a name that is not bound adds the binding at the end.
pub proof fn lemma_insert_new(g: Seq<(Seq<char>, SpecValue)>, name: Seq<char>, v: SpecValue)
    requires
        forall|i: int| 0 <= i < g.len() ==> (#[trigger] g[i]).0 != name,
    ensures
        spec_insert(g, name, v) == g.push((name, v)),
    decreases g.len(),
{
    if g.len() > 0 {
        assert(g[0].0 != name);
        assert forall|i: int| 0 <= i < g.drop_first().len() implies (#[trigger] g.drop_first()[i]).0
            != name by {
            assert(g.drop_first()[i] == g[i + 1]);
        }
        lemma_insert_new(g.drop_first(), name, v);
        assert(seq![g[0]] + g.drop_first().push((name, v)) =~= g.push((name, v)));
    } else {
        assert(seq![(name, v)] =~= g.push((name, v)));
    }
}

/// The names of the builtin bindings are distinct.
proof fn lemma_builtin_names_distinct(k: int)
    requires
        0 <= k < 7,
    ensures
        forall|i: int|
            0 <= i < k ==> (#[trigger] builtin_bindings().take(k)[i]).0 != builtin_bindings()[k].0,
{
    reveal_strlit("+");
    reveal_strlit("%");
    reveal_strlit(".");
    reveal_strlit("x2");
    reveal_strlit("to_int");
    reveal_strlit("__get_symbol_bind__");
    reveal_strlit("map");
    let b = builtin_bindings();
    assert("+"@ =~= seq!['+']);
    assert("%"@ =~= seq!['%']);
    assert("."@ =~= seq!['.']);
    assert("x2"@.len() == 2);
    assert("to_int"@.len() == 6);
    assert("map"@.len() == 3);
    assert("__get_symbol_bind__"@.len() == 19);
    assert(b[0].0 =~= seq!['+']);
    assert(b[1].0 =~= seq!['%']);
    assert(b[2].0 =~= seq!['.']);
    assert(b[3].0.len() == 2);
    assert(b[4].0.len() == 6);
    assert(b[5].0.len() == 19);
    assert(b[6].0.len() == 3);
    assert forall|i: int| 0 <= i < k implies (#[trigger] b.take(k)[i]).0 != b[k].0 by {
        assert(b.take(k)[i] == b[i]);
        if i == 0 {
            assert(b[0].0[0] == '+');
        } else if i == 1 {
            assert(b[1].0[0] == '%');
        } else if i == 2 {
            assert(b[2].0[0] == '.');
        }
        if k == 1 {
            assert(b[1].0[0] == '%');
        } else if k == 2 {
            assert(b[2].0[0] == '.');
        }
    }
}

/// The bindings a new machine starts with.
pub open spec fn builtin_bindings() -> Seq<(Seq<char>, SpecValue)> {
    seq![
        ("+"@, spec_create_fn("+"@, 2, Builtin::Add)),
        ("%"@, spec_create_fn("%"@, 1, Builtin::Percent)),
        ("."@, spec_create_fn("."@, 2, Builtin::Dot)),
        ("x2"@, spec_create_fn("x2"@, 1, Builtin::X2)),
        ("to_int"@, spec_create_fn("to_int"@, 2, Builtin::ToInt)),
        ("__get_symbol_bind__"@, spec_create_fn("__get_symbol_bind__"@, 1, Builtin::GetSymbolBind)),
        ("map"@, spec_create_fn("map"@, 2, Builtin::MapEach)),
    ]
}

/// The bindings `g` after binding each name of `bs` to its value, in order.
pub open spec fn spec_insert_all(
    g: Seq<(Seq<char>, SpecValue)>,
    bs: Seq<(Seq<char>, SpecValue)>,
) -> Seq<(Seq<char>, SpecValue)>
    decreases bs.len(),
{
    if bs.len() == 0 {
        g
    } else {
        spec_insert(spec_insert_all(g, bs.drop_last()), bs.last().0, bs.last().1)
    }
}

/// Binding the first `k` builtins on a machine with no bindings gives exactly them.
proof fn lemma_builtins_from_empty(k: int)
    requires
        0 <= k <= 7,
    ensures
        spec_insert_all(Seq::empty(), builtin_bindings().take(k)) == builtin_bindings().take(k),
    decreases k,
{
    let b = builtin_bindings();
    if k == 0 {
        assert(b.take(0) =~= Seq::<(Seq<char>, SpecValue)>::empty());
    } else {
        lemma_builtins_from_empty(k - 1);
        assert(b.take(k).drop_last() =~= b.take(k - 1));
        assert(b.take(k).last() == b[k - 1]);
        lemma_builtin_names_distinct(k - 1);
        lemma_insert_new(b.take(k - 1), b[k - 1].0, b[k - 1].1);
        assert(b.take(k - 1).push(b[k - 1]) =~= b.take(k));
    }
}

/// The machine.
#[derive(Debug)]
pub struct XurVM {
    global_state: Vec<(String, Value)>,
}

pub open spec fn entries_view(es: Seq<(String, Value)>) -> Seq<(Seq<char>, SpecValue)> {
    es.map_values(|p: (String, Value)| (p.0@, p.1@))
}

/// Every binding is a function with no bound arguments.
pub open spec fn all_unbound(g: Seq<(Seq<char>, SpecValue)>) -> bool {
    forall|i: int| 0 <= i < g.len() ==> #[trigger] is_unbound_function(g[i].1)
}

/// No name is bound twice.
pub open spec fn names_distinct(g: Seq<(Seq<char>, SpecValue)>) -> bool {
    forall|i: int, j: int| 0 <= i < j < g.len() ==> #[trigger] g[i].0 != #[trigger] g[j].0
}

/// A name looked up among bindings that are all unbound functions gives one.
pub proof fn lemma_lookup_unbound(g: Seq<(Seq<char>, SpecValue)>, name: Seq<char>)
    requires
        all_unbound(g),
    ensures
        spec_lookup(g, name) matches Some(v) ==> is_unbound_function(v),
    decreases g.len(),
{
    if g.len() > 0 {
        assert(is_unbound_function(g[0].1));
        assert(all_unbound(g.drop_first())) by {
            assert forall|i: int| 0 <= i < g.drop_first().len() implies #[trigger] is_unbound_function(
                g.drop_first()[i].1,
            ) by {
                assert(g.drop_first()[i] == g[i + 1]);
            }
        }
        lemma_lookup_unbound(g.drop_first(), name);
    }
}

impl XurVM {
    #[verifier::type_invariant]
    spec fn inv(&self) -> bool {
        &&& all_unbound(entries_view(self.global_state@))
        &&& names_distinct(entries_view(self.global_state@))
    }

    /// A machine with the builtin functions bound.
    pub fn new() -> (vm: Self)
        ensures
            vm.bindings() == builtin_bindings(),
    {
        let vm = XurVM { global_state: Vec::new() };
        assert(entries_view(vm.global_state@) =~= Seq::<(Seq<char>, SpecValue)>::empty());
        proof {
            lemma_builtins_from_empty(7);
            assert(builtin_bindings().take(7) =~= builtin_bindings());
        }
        vm.add_builtins()
    }

    /// Binds `name` to the builtin `f`, taking `arg_n` arguments.
    pub fn add_fn(&mut self, name: &str, arg_n: usize, f: Builtin)
        ensures
            final(self).bindings() == spec_insert(
                old(self).bindings(),
                name@,
                spec_create_fn(name@, arg_n, f),
            ),
    {
        proof {
            use_type_invariant(&*self);
        }
        let ghost g0 = self.bindings();
        let key = name.to_owned();
        let value = Value::create_fn(name, arg_n, f);
        let mut entries: Vec<(String, Value)> = Vec::new();
        std::mem::swap(&mut entries, &mut self.global_state);
        assert(entries_view(entries@) == g0);
        let ghost nv = spec_create_fn(name@, arg_n, f);
        let mut i: usize = 0;
        assert(g0.take(0) + spec_insert(g0.skip(0), name@, nv) =~= spec_insert(g0, name@, nv)) by {
            assert(g0.skip(0) =~= g0);
        }
        while i < entries.len()
            invariant
                i <= entries.len(),
                entries_view(entries@) == g0,
                forall|j: int| 0 <= j < i ==> g0[j].0 != name@,
                spec_insert(g0, name@, spec_create_fn(name@, arg_n, f)) == g0.take(i as int)
                    + spec_insert(g0.skip(i as int), name@, spec_create_fn(name@, arg_n, f)),
                key@ == name@,
                nv == spec_create_fn(name@, arg_n, f),
            ensures
                i < entries.len() ==> entries@[i as int].0@ == name@,
            decreases entries.len() - i,
        {
            let same = entries[i].0 == key;
            if same {
                break ;
            }
            proof {
                assert(g0[i as int].0 == entries@[i as int].0@);
                assert(g0[i as int].0 != name@);
                let gi = g0.skip(i as int);
                assert(gi[0] == g0[i as int]);
                assert(gi.drop_first() =~= g0.skip(i + 1));
                assert(spec_insert(gi, name@, nv) == seq![gi[0]] + spec_insert(gi.drop_first(), name@, nv));
                assert(g0.take(i + 1) =~= g0.take(i as int) + seq![g0[i as int]]);
                assert(g0.take(i as int) + spec_insert(gi, name@, nv) =~= g0.take(i + 1)
                    + spec_insert(g0.skip(i + 1), name@, nv));
            }
            i = i + 1;
        }
        if i < entries.len() {
            proof {
                assert(entries@[i as int].0@ == key@);
            }
            entries.set(i, (key, value));
            proof {
                let gi = g0.skip(i as int);
                assert(gi[0] == g0[i as int]);
                assert(g0[i as int].0 == name@);
                assert(gi.drop_first() =~= g0.skip(i + 1));
                assert(entries_view(entries@) =~= g0.take(i as int) + (seq![(name@, nv)] + gi.drop_first()));
            }
        } else {
            entries.push((key, value));
            proof {
                assert(g0.skip(i as int) =~= Seq::<(Seq<char>, SpecValue)>::empty());
                assert(g0.take(i as int) =~= g0);
                assert(entries_view(entries@) =~= g0 + seq![(name@, nv)]);
            }
        }
        proof {
            assert forall|j: int| 0 <= j < entries_view(entries@).len() implies #[trigger] is_unbound_function(
                entries_view(entries@)[j].1,
            ) by {
                if j != i {
                    assert(entries_view(entries@)[j] == g0[j]);
                }
            }
            let g1 = entries_view(entries@);
            assert forall|a: int, b: int| 0 <= a < b < g1.len() implies #[trigger] g1[a].0
                != #[trigger] g1[b].0 by {
                if a != i {
                    assert(g1[a] == g0[a]);
                }
                if b != i {
                    assert(g1[b] == g0[b]);
                }
                if a == i || b == i {
                    if a == i && b < g0.len() {
                        assert(g0[b].0 != g0[a].0);
                    }
                    if b == i && i < g0.len() {
                        assert(g0[a].0 != g0[b].0);
                    }
                }
            }
        }
        self.global_state = entries;
    }

    /// Binds every builtin function, in order, over the bindings the machine
    /// already has.
    fn add_builtins(self) -> (vm: Self)
        ensures
            vm.bindings() == spec_insert_all(self.bindings(), builtin_bindings()),
    {
        let ghost g0 = self.bindings();
        let ghost b = builtin_bindings();
        let mut vm = self;
        proof {
            assert(b.take(0) =~= Seq::<(Seq<char>, SpecValue)>::empty());
            assert(spec_insert_all(g0, b.take(0)) == g0);
        }
        vm.add_fn("+", 2, Builtin::Add);
        proof {
            assert(b.take(1).drop_last() =~= b.take(0));
            assert(b.take(1).last() == b[0]);
            assert(vm.bindings() == spec_insert_all(g0, b.take(1)));
        }
        vm.add_fn("%", 1, Builtin::Percent);
        proof {
            assert(b.take(2).drop_last() =~= b.take(1));
            assert(b.take(2).last() == b[1]);
            assert(vm.bindings() == spec_insert_all(g0, b.take(2)));
        }
        vm.add_fn(".", 2, Builtin::Dot);
        proof {
            assert(b.take(3).drop_last() =~= b.take(2));
            assert(b.take(3).last() == b[2]);
            assert(vm.bindings() == spec_insert_all(g0, b.take(3)));
        }
        vm.add_fn("x2", 1, Builtin::X2);
        proof {
            assert(b.take(4).drop_last() =~= b.take(3));
            assert(b.take(4).last() == b[3]);
            assert(vm.bindings() == spec_insert_all(g0, b.take(4)));
        }
        vm.add_fn("to_int", 2, Builtin::ToInt);
        proof {
            assert(b.take(5).drop_last() =~= b.take(4));
            assert(b.take(5).last() == b[4]);
            assert(vm.bindings() == spec_insert_all(g0, b.take(5)));
        }
        vm.add_fn("__get_symbol_bind__", 1, Builtin::GetSymbolBind);
        proof {
            assert(b.take(6).drop_last() =~= b.take(5));
            assert(b.take(6).last() == b[5]);
            assert(vm.bindings() == spec_insert_all(g0, b.take(6)));
        }
        vm.add_fn("map", 2, Builtin::MapEach);
        proof {
            assert(b.take(7).drop_last() =~= b.take(6));
            assert(b.take(7).last() == b[6]);
            assert(vm.bindings() == spec_insert_all(g0, b.take(7)));
        }
        proof {
            assert(b.take(7) =~= b);
        }
        vm
    }

    /// The position of the first binding of `name`.
    fn find(&self, name: &String) -> (r: Option<usize>)
        ensures
            match r {
                Some(i) => i < self.global_state@.len() && spec_lookup(self.bindings(), name@) == Some(
                    self.global_state@[i as int].1@,
                ),
                None => spec_lookup(self.bindings(), name@) is None,
            },
    {
        let ghost g = self.bindings();
        let mut i: usize = 0;
        assert(g.skip(0) =~= g);
        while i < self.global_state.len()
            invariant
                g == self.bindings(),
                g == entries_view(self.global_state@),
                i <= self.global_state.len(),
                spec_lookup(g, name@) == spec_lookup(g.skip(i as int), name@),
            decreases self.global_state.len() - i,
        {
            proof {
                let gi = g.skip(i as int);
                assert(gi[0] == g[i as int]);
                assert(gi.drop_first() =~= g.skip(i + 1));
            }
            if self.global_state[i].0 == *name {
                return Some(i);
            }
            i = i + 1;
        }
        assert(g.skip(i as int) =~= Seq::<(Seq<char>, SpecValue)>::empty());
        None
    }

    /// A copy of the function bound at position `i`.
    fn copy_binding(&self, i: usize) -> (r: Value)
        requires
            i < self.global_state@.len(),
        ensures
            r@ == self.global_state@[i as int].1@,
            is_unbound_function(r@),
    {
        proof {
            use_type_invariant(self);
            assert(is_unbound_function(entries_view(self.global_state@)[i as int].1));
        }
        match &self.global_state[i].1 {
            Value::Function(c) => {
                let v = Value::Function(
                    Callable::from_parts(c.name().to_owned(), c.expected_args(), c.target(), Vec::new()),
                );
                proof {
                    assert(c@.binded_args =~= Seq::<SpecExpr>::empty());
                    assert(exprs_view(Seq::<Expression>::empty()) =~= Seq::<SpecExpr>::empty());
                }
                v
            },
            _ => {
                assert(false);
                Value::Nil
            },
        }
    }

    /// Runs a statement: an expression gives its value (so a bare function name
    /// gives the function, and a call what the call gives); an empty statement
    /// gives nil.
    pub fn execute(&mut self, s: Statement) -> (r: Result<Value, VmError>)
        ensures
            final(self).bindings() == old(self).bindings(),
            match s@ {
                SpecStatement::Expr(e) => match spec_eval(old(self).bindings(), e) {
                    Ok(v) => r matches Ok(x) && x@ == v,
                    Err(e) => r matches Err(x) && x@ == e,
                },
                SpecStatement::Empty => r matches Ok(x) && x@ == SpecValue::Nil,
            },
    {
        match s {
            Statement::Expr(e) => self.get_value(e),
            Statement::Empty => Ok(Value::Nil),
        }
    }

    /// The value of an expression.
    fn get_value(&self, ex: Expression) -> (r: Result<Value, VmError>)
        ensures
            match spec_eval(self.bindings(), ex@) {
                Ok(v) => r matches Ok(x) && x@ == v,
                Err(e) => r matches Err(x) && x@ == e,
            },
            r matches Ok(v) ==> value_fn_size(v@) < expr_size(ex@),
        decreases expr_size(ex@), 5int,
    {
        match ex {
            Expression::Variable(s) => match self.find(&s) {
                Some(i) => Ok(self.copy_binding(i)),
                None => Err(VmError::NotDefined(s)),
            },
            Expression::Literal(LiteralValue::Number(n)) => Ok(Value::Number(n)),
            Expression::Literal(LiteralValue::String(s)) => Ok(Value::String(s)),
            Expression::Literal(_) => Err(VmError::UnsupportedLiteral),
            Expression::Array(a) => match self.eval_all(a) {
                Ok(vs) => Ok(Value::Array(vs)),
                Err(e) => Err(e),
            },
            x => self.run_expr(x),
        }
    }

    /// Runs an expression as a call.
    fn run_expr(&self, ex: Expression) -> (r: Result<Value, VmError>)
        ensures
            match spec_run(self.bindings(), ex@) {
                Ok(v) => r matches Ok(x) && x@ == v,
                Err(e) => r matches Err(x) && x@ == e,
            },
            r matches Ok(v) ==> value_fn_size(v@) < expr_size(ex@),
        decreases expr_size(ex@), 4int,
    {
        match ex {
            Expression::Call { callie, args } => self.call_with(*callie, args),
            _ => Err(VmError::CannotRun),
        }
    }

    /// Calls what `callie` evaluates to with the (unevaluated) `args`.
    fn call_with(&self, callie: Expression, args: Vec<Expression>) -> (r: Result<Value, VmError>)
        ensures
            match spec_call(self.bindings(), callie@, exprs_view(args@)) {
                Ok(v) => r matches Ok(x) && x@ == v,
                Err(e) => r matches Err(x) && x@ == e,
            },
            r matches Ok(v) ==> value_fn_size(v@) < expr_size(callie@) + exprs_size(exprs_view(args@)),
        decreases expr_size(callie@) + exprs_size(exprs_view(args@)), 6int,
    {
        let fv = match self.get_value(callie) {
            Ok(v) => v,
            Err(e) => {
                return Err(e);
            },
        };
        let f = match fv.get_callable() {
            Ok(f) => f,
            Err(e) => {
                return Err(e);
            },
        };
        f.call(self, args)
    }

    /// The values of a sequence of expressions, in order.
    fn eval_all(&self, es: Vec<Expression>) -> (r: Result<Vec<Value>, VmError>)
        ensures
            match spec_eval_all(self.bindings(), exprs_view(es@)) {
                Ok(vs) => r matches Ok(x) && values_view(x@) == vs,
                Err(e) => r matches Err(x) && x@ == e,
            },
        decreases exprs_size(exprs_view(es@)), 6int,
    {
        let ghost e0 = exprs_view(es@);
        let ghost g = self.bindings();
        let mut q = to_deque(es);
        let mut out: Vec<Value> = Vec::new();
        assert(values_view(out@) =~= Seq::<SpecValue>::empty());
        loop
            invariant_except_break
                match spec_eval_all(g, exprs_view(q@)) {
                    Ok(vs) => spec_eval_all(g, e0) == Ok::<Seq<SpecValue>, SpecVmError>(
                        values_view(out@) + vs,
                    ),
                    Err(e) => spec_eval_all(g, e0) == Err::<Seq<SpecValue>, SpecVmError>(e),
                },
            invariant
                g == self.bindings(),
                e0 == exprs_view(es@),
                exprs_size(exprs_view(q@)) <= exprs_size(e0),
            ensures
                spec_eval_all(g, e0) == Ok::<Seq<SpecValue>, SpecVmError>(values_view(out@)),
            decreases q@.len(),
        {
            let ghost qv = exprs_view(q@);
            let ghost ov = values_view(out@);
            if q.len() == 0 {
                assert(qv =~= Seq::<SpecExpr>::empty());
                assert(ov + Seq::<SpecValue>::empty() =~= ov);
                break ;
            }
            let x = q.pop_front().unwrap();
            proof {
                assert(qv[0] == x@);
                assert(exprs_view(q@) =~= qv.subrange(1, qv.len() as int));
                lemma_exprs_size_first(qv);
            }
            match self.get_value(x) {
                Ok(v) => {
                    let ghost vv = v@;
                    out.push(v);
                    proof {
                        assert(values_view(out@) =~= ov.push(vv));
                        match spec_eval_all(g, exprs_view(q@)) {
                            Ok(vs) => {
                                assert(ov + (seq![vv] + vs) =~= values_view(out@) + vs);
                            },
                            Err(e) => {},
                        }
                    }
                },
                Err(e) => {
                    return Err(e);
                },
            }
        }
        Ok(out)
    }

    /// The values of the arguments of a builtin, parameter sets spread out.
    fn resolve_all(&self, args: Vec<Expression>) -> (r: Result<Vec<Value>, VmError>)
        ensures
            match spec_resolve(self.bindings(), exprs_view(args@)) {
                Ok(vs) => r matches Ok(x) && values_view(x@) == vs,
                Err(e) => r matches Err(x) && x@ == e,
            },
        decreases exprs_size(exprs_view(args@)), 7int,
    {
        proof {
            lemma_spread_size(exprs_view(args@));
        }
        let flat = super::var::spread_args(args);
        self.eval_all(flat)
    }

    /// What the builtin `b` gives for the (unevaluated) arguments `args`.
    pub(crate) fn run_builtin(&self, b: Builtin, args: Vec<Expression>) -> (r: Result<
        Value,
        VmError,
    >)
        ensures
            match spec_builtin(self.bindings(), b, exprs_view(args@)) {
                Ok(v) => r matches Ok(x) && x@ == v,
                Err(e) => r matches Err(x) && x@ == e,
            },
            r matches Ok(v) ==> value_fn_size(v@) <= exprs_size(exprs_view(args@)),
        decreases exprs_size(exprs_view(args@)), 8int,
    {
        let ghost g = self.bindings();
        let ghost av = exprs_view(args@);
        match b {
            Builtin::Dot => {
                let mut args = args;
                if args.len() < 2 {
                    return Err(VmError::MissingArgument);
                }
                proof {
                    lemma_exprs_size_last_two(av);
                }
                let value_1 = args.pop().unwrap();
                let value_2 = args.pop().unwrap();
                assert(value_1@ == av[av.len() - 1]);
                assert(value_2@ == av[av.len() - 2]);
                let ghost v2 = value_2@;
                proof {
                    lemma_exprs_size_single(v2);
                }
                match value_1 {
                    Expression::Call { callie, args: inner } => {
                        let ghost iv = exprs_view(inner@);
                        let mut inner = inner;
                        inner.insert(0, value_2);
                        proof {
                            assert(exprs_view(inner@) =~= seq![v2] + iv);
                            lemma_exprs_size_concat(seq![v2], iv);
                        }
                        let expr = Expression::Call { callie, args: inner };
                        assert(expr@ == spec_dot_target(av[av.len() - 2], av[av.len() - 1]));
                        self.get_value(expr)
                    },
                    x => {
                        let one = vec![value_2];
                        proof {
                            assert(exprs_view(one@) =~= seq![v2]);
                        }
                        self.call_with(x, one)
                    },
                }
            },
            Builtin::MapEach => self.map_each(args),
            _ => {
                let vals = match self.resolve_all(args) {
                    Ok(v) => v,
                    Err(e) => {
                        return Err(e);
                    },
                };
                let r = self.builtin_values(b, vals);
                r
            },
        }
    }

    /// `map`: the array before the last argument with the last argument, a
    /// function, called on each of its items.
    fn map_each(&self, args: Vec<Expression>) -> (r: Result<Value, VmError>)
        ensures
            match spec_builtin(self.bindings(), Builtin::MapEach, exprs_view(args@)) {
                Ok(v) => r matches Ok(x) && x@ == v,
                Err(e) => r matches Err(x) && x@ == e,
            },
            r matches Ok(v) ==> value_fn_size(v@) == 0,
        decreases exprs_size(exprs_view(args@)), 7int,
    {
        let ghost g = self.bindings();
        let ghost av = exprs_view(args@);
        proof {
            lemma_spread_size(av);
            lemma_exprs_size_single_all();
        }
        let flat = super::var::spread_args(args);
        let ghost fv = exprs_view(flat@);
        let mut vals = match self.eval_all(copy_exprs(&flat)) {
            Ok(v) => v,
            Err(e) => {
                return Err(e);
            },
        };
        assert(spec_resolve(g, av) == spec_eval_all(g, fv));
        if vals.len() < 2 || flat.len() < 2 {
            return Err(VmError::MissingArgument);
        }
        proof {
            lemma_exprs_size_last_two(fv);
        }
        let f = &flat[flat.len() - 1];
        assert(f@ == fv[fv.len() - 1]);
        let ghost vv = values_view(vals@);
        let last = vals.pop().unwrap();
        let before = vals.pop().unwrap();
        assert(last@ == vv[vv.len() - 1]);
        assert(before@ == vv[vv.len() - 2]);
        match last {
            Value::Function(_) => {},
            _ => {
                return Err(VmError::NotCallable);
            },
        }
        let items = match before {
            Value::Array(items) => items,
            _ => {
                return Err(VmError::NotArray);
            },
        };
        let ghost iv = values_view(items@);
        let ghost rs = map_results(g, f@, iv);
        let mut out: Vec<Value> = Vec::new();
        let mut i: usize = 0;
        assert(values_view(out@) =~= Seq::<SpecValue>::empty());
        assert(rs.skip(0) =~= rs);
        assert(spec_builtin(g, Builtin::MapEach, av) == match all_ok(rs) {
            Ok(vs) => Ok::<SpecValue, SpecVmError>(SpecValue::Array(vs)),
            Err(e) => Err(e),
        });
        while i < items.len()
            invariant
                i <= items.len(),
                g == self.bindings(),
                iv == values_view(items@),
                rs == map_results(g, f@, iv),
                rs.len() == iv.len(),
                expr_size(f@) + 1 <= exprs_size(av),
                av == exprs_view(args@),
                spec_builtin(g, Builtin::MapEach, av) == match all_ok(rs) {
                    Ok(vs) => Ok::<SpecValue, SpecVmError>(SpecValue::Array(vs)),
                    Err(e) => Err(e),
                },
                match all_ok(rs.skip(i as int)) {
                    Ok(vs) => all_ok(rs) == Ok::<Seq<SpecValue>, SpecVmError>(values_view(out@) + vs),
                    Err(e) => all_ok(rs) == Err::<Seq<SpecValue>, SpecVmError>(e),
                },
            decreases items.len() - i,
        {
            let ghost rest = rs.skip(i as int);
            let ghost ov = values_view(out@);
            proof {
                assert(rest[0] == rs[i as int]);
                assert(rest.drop_first() =~= rs.skip(i + 1));
                assert(iv[i as int] == items@[i as int]@);
            }
            let lit = match &items[i] {
                Value::Number(n) => Expression::Literal(LiteralValue::Number(*n)),
                Value::String(s) => Expression::Literal(LiteralValue::String(Rc::new((**s).clone()))),
                _ => {
                    proof {
                        assert(literal_of(iv[i as int]) is None);
                        assert(rs[i as int] == Err::<SpecValue, SpecVmError>(
                            SpecVmError::UnsupportedLiteral,
                        ));
                        assert(all_ok(rest) == Err::<Seq<SpecValue>, SpecVmError>(
                            SpecVmError::UnsupportedLiteral,
                        ));
                    }
                    return Err(VmError::UnsupportedLiteral);
                },
            };
            assert(literal_of(iv[i as int]) == Some(lit@));
            let one = vec![lit];
            proof {
                assert(exprs_view(one@) =~= seq![lit@]);
                lemma_exprs_size_single(lit@);
                assert(rs[i as int] == spec_call(g, f@, seq![lit@]));
            }
            match self.call_with(copy_expr(f), one) {
                Ok(v) => {
                    let ghost x = v@;
                    out.push(v);
                    proof {
                        assert(values_view(out@) =~= ov.push(x));
                        match all_ok(rs.skip(i + 1)) {
                            Ok(vs) => {
                                assert(ov + (seq![x] + vs) =~= values_view(out@) + vs);
                            },
                            Err(e) => {},
                        }
                    }
                },
                Err(e) => {
                    return Err(e);
                },
            }
            i = i + 1;
        }
        proof {
            assert(rs.skip(i as int) =~= Seq::<Result<SpecValue, SpecVmError>>::empty());
            assert(values_view(out@) + Seq::<SpecValue>::empty() =~= values_view(out@));
        }
        Ok(Value::Array(out))
    }

    /// What a builtin other than `.` and `map` gives for its evaluated arguments.
    fn builtin_values(&self, b: Builtin, vals: Vec<Value>) -> (r: Result<Value, VmError>)
        requires
            b != Builtin::Dot,
            b != Builtin::MapEach,
        ensures
            match spec_builtin_values(self.bindings(), b, values_view(vals@)) {
                Ok(v) => r matches Ok(x) && x@ == v,
                Err(e) => r matches Err(x) && x@ == e,
            },
            r matches Ok(v) ==> value_fn_size(v@) == 0,
    {
        let ghost vv = values_view(vals@);
        let mut args = vals;
        match b {
            Builtin::Add => {
                let value_1 = match pop_number(&mut args) {
                    Ok(n) => n,
                    Err(e) => {
                        return Err(e);
                    },
                };
                let value_2 = match pop_number(&mut args) {
                    Ok(n) => n,
                    Err(e) => {
                        return Err(e);
                    },
                };
                match value_1.checked_add(value_2) {
                    Some(n) => Ok(Value::Number(n)),
                    None => Err(VmError::Overflow),
                }
            },
            Builtin::Percent | Builtin::GetSymbolBind => {
                let value_1 = match pop_string(&mut args) {
                    Ok(s) => s,
                    Err(e) => {
                        return Err(e);
                    },
                };
                let name: String = (*value_1).clone();
                proof {
                    use_type_invariant(self);
                    lemma_lookup_unbound(self.bindings(), name@);
                }
                match self.find(&name) {
                    None => Err(VmError::NoBinding(name)),
                    Some(i) => Ok(self.copy_binding(i)),
                }
            },
            Builtin::X2 => {
                let value_1 = match pop_number(&mut args) {
                    Ok(n) => n,
                    Err(e) => {
                        return Err(e);
                    },
                };
                match value_1.checked_mul(2) {
                    Some(n) => Ok(Value::Number(n)),
                    None => Err(VmError::Overflow),
                }
            },
            Builtin::ToInt => {
                let value_1 = match pop_number(&mut args) {
                    Ok(n) => n,
                    Err(e) => {
                        return Err(e);
                    },
                };
                let value_2 = match pop_string(&mut args) {
                    Ok(s) => s,
                    Err(e) => {
                        return Err(e);
                    },
                };
                let radix = value_1 as u32;
                if radix < 2 || radix > 36 {
                    return Err(VmError::InvalidRadix);
                }
                let text: &String = &*value_2;
                let digits = chars_of(text.as_str());
                match from_str_radix(&digits, radix) {
                    Some(n) => Ok(Value::Number(n)),
                    None => Err(VmError::InvalidNumber),
                }
            },
            Builtin::Dot | Builtin::MapEach => Err(VmError::MissingArgument),
        }
    }
}

/// Takes the last value, as a number: the `k`-th from the end of the values
/// the builtin started with.
fn pop_number(args: &mut Vec<Value>) -> (r: Result<u128, VmError>)
    ensures
        match arg_number(values_view(old(args)@), 1) {
            Ok(n) => r == Ok::<u128, VmError>(n),
            Err(e) => r matches Err(x) && x@ == e,
        },
        old(args)@.len() > 0 ==> values_view(final(args)@) == values_view(old(args)@).drop_last(),
{
    let ghost before = args@;
    match args.pop() {
        Some(v) => {
            proof {
                assert(values_view(args@) =~= values_view(before).drop_last());
            }
            v.get_number()
        },
        None => Err(VmError::MissingArgument),
    }
}

/// Takes the last value, as a string.
fn pop_string(args: &mut Vec<Value>) -> (r: Result<std::rc::Rc<String>, VmError>)
    ensures
        match arg_string(values_view(old(args)@), 1) {
            Ok(s) => r matches Ok(x) && x@ == s,
            Err(e) => r matches Err(x) && x@ == e,
        },
        old(args)@.len() > 0 ==> values_view(final(args)@) == values_view(old(args)@).drop_last(),
{
    let ghost before = args@;
    match args.pop() {
        Some(v) => {
            proof {
                assert(values_view(args@) =~= values_view(before).drop_last());
            }
            v.get_string()
        },
        None => Err(VmError::MissingArgument),
    }
}

impl Enviroment for XurVM {
    closed spec fn bindings(&self) -> Seq<(Seq<char>, SpecValue)> {
        entries_view(self.global_state@)
    }

    fn get_value(&self, name: &str) -> (r: Option<&Value>) {
        let key = name.to_owned();
        match self.find(&key) {
            Some(i) => Some(&self.global_state[i].1),
            None => None,
        }
    }

    fn resolve_expression(&mut self, ex: Expression) -> (r: Result<Value, VmError>) {
        XurVM::get_value(self, ex)
    }

    fn resolve_args(&mut self, args: Vec<Expression>) -> (r: Result<Vec<Value>, VmError>) {
        self.resolve_all(args)
    }
}

} // verus!
