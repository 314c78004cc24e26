//! The primitive callables of the language.
//!
//! Each builtin is one variant of [`Builtin`]; the evaluator dispatches on
//! the variant, so a builtin value is compared and copied as a plain tag.
//! A builtin carries a static `do_eval` discipline: callables with
//! `do_eval() == false` are the special forms, whose arguments reach them
//! unevaluated.

use vstd::prelude::*;

use crate::data::{
    chars_eq, clone_value, lemma_val_valid_grow, lemma_vals_valid_grow, lemma_vals_valid_index,
    lemma_vals_view_elts, names_view, res_view, val_valid, vals_valid, vals_view, List,
    RuntimeError, Ty, Val, Value,
};
use crate::lambda::Lambda;
use crate::scope::{FrameV, Scope, StateV};
use crate::semantics::{
    div64, ev_arith, ev_arith_inv, ev_compare, falsish, param_names, str_lt, val_eq, vals_eq,
};
use crate::value::{chars_of, debug_chars, display_chars};

verus! {

/// The registered primitive callables.
#[derive(Clone, Copy, PartialEq, Eq, Structural, Debug)]
pub enum Builtin {
    Quote,
    Let,
    Assign,
    If,
    And,
    Or,
    Begin,
    Lambda,
    Funcall,
    Apply,
    Eval,
    MapFn,
    Fold,
    Car,
    Cdr,
    Cons,
    ListFn,
    Not,
    Add,
    Sub,
    Mul,
    Div,
    Equal,
    Lt,
    Gt,
    Le,
    Ge,
    Atom,
    TypeOf,
    Display,
    Debug,
}

/// The name under which the builtin is registered in the root frame.
pub open spec fn builtin_name(b: Builtin) -> Seq<char> {
    match b {
        Builtin::Quote => "quote"@,
        Builtin::Let => "let"@,
        Builtin::Assign => "set"@,
        Builtin::If => "if"@,
        Builtin::And => "and"@,
        Builtin::Or => "or"@,
        Builtin::Begin => "begin"@,
        Builtin::Lambda => "lambda"@,
        Builtin::Funcall => "funcall"@,
        Builtin::Apply => "apply"@,
        Builtin::Eval => "eval"@,
        Builtin::MapFn => "map"@,
        Builtin::Fold => "fold"@,
        Builtin::Car => "car"@,
        Builtin::Cdr => "cdr"@,
        Builtin::Cons => "cons"@,
        Builtin::ListFn => "list"@,
        Builtin::Not => "not"@,
        Builtin::Add => "+"@,
        Builtin::Sub => "-"@,
        Builtin::Mul => "*"@,
        Builtin::Div => "/"@,
        Builtin::Equal => "equal"@,
        Builtin::Lt => "<"@,
        Builtin::Gt => ">"@,
        Builtin::Le => "<="@,
        Builtin::Ge => ">="@,
        Builtin::Atom => "atom"@,
        Builtin::TypeOf => "typeof"@,
        Builtin::Display => "display"@,
        Builtin::Debug => "debug"@,
    }
}

/// Whether the evaluator evaluates the arguments before handing them over.
/// The special forms return `false` here.
pub open spec fn spec_do_eval(b: Builtin) -> bool {
    match b {
        Builtin::Quote => false,
        Builtin::Let => false,
        Builtin::Assign => false,
        Builtin::If => false,
        Builtin::And => false,
        Builtin::Or => false,
        Builtin::Begin => false,
        Builtin::Lambda => false,
        _ => true,
    }
}

impl Builtin {
    /// The registered name of the builtin.
    pub fn name(&self) -> (r: &'static str)
        ensures
            r@ == builtin_name(*self),
    {
        match *self {
            Builtin::Quote => "quote",
            Builtin::Let => "let",
            Builtin::Assign => "set",
            Builtin::If => "if",
            Builtin::And => "and",
            Builtin::Or => "or",
            Builtin::Begin => "begin",
            Builtin::Lambda => "lambda",
            Builtin::Funcall => "funcall",
            Builtin::Apply => "apply",
            Builtin::Eval => "eval",
            Builtin::MapFn => "map",
            Builtin::Fold => "fold",
            Builtin::Car => "car",
            Builtin::Cdr => "cdr",
            Builtin::Cons => "cons",
            Builtin::ListFn => "list",
            Builtin::Not => "not",
            Builtin::Add => "+",
            Builtin::Sub => "-",
            Builtin::Mul => "*",
            Builtin::Div => "/",
            Builtin::Equal => "equal",
            Builtin::Lt => "<",
            Builtin::Gt => ">",
            Builtin::Le => "<=",
            Builtin::Ge => ">=",
            Builtin::Atom => "atom",
            Builtin::TypeOf => "typeof",
            Builtin::Display => "display",
            Builtin::Debug => "debug",
        }
    }

    /// The evaluation discipline of the builtin.
    pub fn do_eval(&self) -> (r: bool)
        ensures
            r == spec_do_eval(*self),
    {
        match *self {
            Builtin::Quote => false,
            Builtin::Let => false,
            Builtin::Assign => false,
            Builtin::If => false,
            Builtin::And => false,
            Builtin::Or => false,
            Builtin::Begin => false,
            Builtin::Lambda => false,
            _ => true,
        }
    }
}

/// The root-frame bindings that register every builtin under its name.
pub open spec fn builtins_map(m: Map<Seq<char>, Val>) -> Map<Seq<char>, Val> {
    m.insert(builtin_name(Builtin::Quote), Val::Builtin(Builtin::Quote)).insert(
        builtin_name(Builtin::Let),
        Val::Builtin(Builtin::Let),
    ).insert(builtin_name(Builtin::Assign), Val::Builtin(Builtin::Assign)).insert(
        builtin_name(Builtin::If),
        Val::Builtin(Builtin::If),
    ).insert(builtin_name(Builtin::And), Val::Builtin(Builtin::And)).insert(
        builtin_name(Builtin::Or),
        Val::Builtin(Builtin::Or),
    ).insert(builtin_name(Builtin::Begin), Val::Builtin(Builtin::Begin)).insert(
        builtin_name(Builtin::Lambda),
        Val::Builtin(Builtin::Lambda),
    ).insert(builtin_name(Builtin::Funcall), Val::Builtin(Builtin::Funcall)).insert(
        builtin_name(Builtin::Apply),
        Val::Builtin(Builtin::Apply),
    ).insert(builtin_name(Builtin::Eval), Val::Builtin(Builtin::Eval)).insert(
        builtin_name(Builtin::MapFn),
        Val::Builtin(Builtin::MapFn),
    ).insert(builtin_name(Builtin::Fold), Val::Builtin(Builtin::Fold)).insert(
        builtin_name(Builtin::Car),
        Val::Builtin(Builtin::Car),
    ).insert(builtin_name(Builtin::Cdr), Val::Builtin(Builtin::Cdr)).insert(
        builtin_name(Builtin::Cons),
        Val::Builtin(Builtin::Cons),
    ).insert(builtin_name(Builtin::ListFn), Val::Builtin(Builtin::ListFn)).insert(
        builtin_name(Builtin::Not),
        Val::Builtin(Builtin::Not),
    ).insert(builtin_name(Builtin::Add), Val::Builtin(Builtin::Add)).insert(
        builtin_name(Builtin::Sub),
        Val::Builtin(Builtin::Sub),
    ).insert(builtin_name(Builtin::Mul), Val::Builtin(Builtin::Mul)).insert(
        builtin_name(Builtin::Div),
        Val::Builtin(Builtin::Div),
    ).insert(builtin_name(Builtin::Equal), Val::Builtin(Builtin::Equal)).insert(
        builtin_name(Builtin::Lt),
        Val::Builtin(Builtin::Lt),
    ).insert(builtin_name(Builtin::Gt), Val::Builtin(Builtin::Gt)).insert(
        builtin_name(Builtin::Le),
        Val::Builtin(Builtin::Le),
    ).insert(builtin_name(Builtin::Ge), Val::Builtin(Builtin::Ge)).insert(
        builtin_name(Builtin::Atom),
        Val::Builtin(Builtin::Atom),
    ).insert(builtin_name(Builtin::TypeOf), Val::Builtin(Builtin::TypeOf)).insert(
        builtin_name(Builtin::Display),
        Val::Builtin(Builtin::Display),
    ).insert(builtin_name(Builtin::Debug), Val::Builtin(Builtin::Debug))
}

/// Registers every builtin of the catalogue in the root frame.
pub fn load_builtins(env: &mut Scope)
    requires
        old(env).wf(),
    ensures
        final(env).wf(),
        final(env)@ == (StateV {
            frames: old(env)@.frames.update(
                0,
                FrameV {
                    map: builtins_map(old(env)@.frames[0].map),
                    parent: old(env)@.frames[0].parent,
                },
            ),
            ..old(env)@
        }),
{
    env.set_builtin(Builtin::Quote);
    env.set_builtin(Builtin::Let);
    env.set_builtin(Builtin::Assign);
    env.set_builtin(Builtin::If);
    env.set_builtin(Builtin::And);
    env.set_builtin(Builtin::Or);
    env.set_builtin(Builtin::Begin);
    env.set_builtin(Builtin::Lambda);
    env.set_builtin(Builtin::Funcall);
    env.set_builtin(Builtin::Apply);
    env.set_builtin(Builtin::Eval);
    env.set_builtin(Builtin::MapFn);
    env.set_builtin(Builtin::Fold);
    env.set_builtin(Builtin::Car);
    env.set_builtin(Builtin::Cdr);
    env.set_builtin(Builtin::Cons);
    env.set_builtin(Builtin::ListFn);
    env.set_builtin(Builtin::Not);
    env.set_builtin(Builtin::Add);
    env.set_builtin(Builtin::Sub);
    env.set_builtin(Builtin::Mul);
    env.set_builtin(Builtin::Div);
    env.set_builtin(Builtin::Equal);
    env.set_builtin(Builtin::Lt);
    env.set_builtin(Builtin::Gt);
    env.set_builtin(Builtin::Le);
    env.set_builtin(Builtin::Ge);
    env.set_builtin(Builtin::Atom);
    env.set_builtin(Builtin::TypeOf);
    env.set_builtin(Builtin::Display);
    env.set_builtin(Builtin::Debug);
    proof {
        assert(env@ =~~= StateV {
            frames: old(env)@.frames.update(
                0,
                FrameV {
                    map: builtins_map(old(env)@.frames[0].map),
                    parent: old(env)@.frames[0].parent,
                },
            ),
            ..old(env)@
        });
    }
}

/// Truncating 64-bit division, total, per [`div64`].
fn div_total(a: i64, b: i64) -> (r: i64)
    ensures
        r == div64(a, b),
{
    if b == 0 {
        0
    } else {
        match a.checked_div(b) {
            Some(q) => q,
            None => i64::MIN,
        }
    }
}

/// Folds `+` or `*` over the argument values from `start`, per
/// [`ev_arith`].
#[verifier::loop_isolation(false)]
fn arith_fold(args: &Vec<Value>, start: usize, init: i64, mul: bool) -> (r: Result<
    i64,
    RuntimeError,
>)
    requires
        start <= args@.len(),
    ensures
        match (r, ev_arith(vals_view(args@).skip(start as int), init, mul)) {
            (Ok(x), Ok(y)) => x == y,
            (Err(a), Err(b)) => a@ == b,
            _ => false,
        },
{
    let ghost va = vals_view(args@);
    proof {
        lemma_vals_view_elts(args@);
    }
    let mut acc: i64 = init;
    let mut i: usize = start;
    while i < args.len()
        invariant
            start <= i <= args@.len(),
            ev_arith(va.skip(start as int), init, mul) == ev_arith(va.skip(i as int), acc, mul),
        decreases args@.len() - i,
    {
        proof {
            assert(va.skip(i as int)[0] == va[i as int]);
            assert(va.skip(i as int).drop_first() =~= va.skip(i as int + 1));
        }
        match &args[i] {
            Value::Number(n) => {
                acc = if mul {
                    acc.wrapping_mul(*n)
                } else {
                    acc.wrapping_add(*n)
                };
            },
            other => {
                return Err(RuntimeError::InvalidArgType(Ty::Number, other.ty()));
            },
        }
        i = i + 1;
    }
    proof {
        assert(va.skip(args@.len() as int) =~= Seq::<Val>::empty());
    }
    Ok(acc)
}

/// Folds `-` or `/` over the argument values from `start`, per
/// [`ev_arith_inv`].
#[verifier::loop_isolation(false)]
fn arith_fold_inv(args: &Vec<Value>, start: usize, init: i64, div: bool) -> (r: Result<
    i64,
    RuntimeError,
>)
    requires
        start <= args@.len(),
    ensures
        match (r, ev_arith_inv(vals_view(args@).skip(start as int), init, div)) {
            (Ok(x), Ok(y)) => x == y,
            (Err(a), Err(b)) => a@ == b,
            _ => false,
        },
{
    let ghost va = vals_view(args@);
    proof {
        lemma_vals_view_elts(args@);
    }
    let mut acc: i64 = init;
    let mut i: usize = start;
    while i < args.len()
        invariant
            start <= i <= args@.len(),
            ev_arith_inv(va.skip(start as int), init, div) == ev_arith_inv(
                va.skip(i as int),
                acc,
                div,
            ),
        decreases args@.len() - i,
    {
        proof {
            assert(va.skip(i as int)[0] == va[i as int]);
            assert(va.skip(i as int).drop_first() =~= va.skip(i as int + 1));
        }
        match &args[i] {
            Value::Number(n) => {
                acc = if div {
                    div_total(acc, *n)
                } else {
                    acc.wrapping_sub(*n)
                };
            },
            other => {
                return Err(RuntimeError::InvalidArgType(Ty::Number, other.ty()));
            },
        }
        i = i + 1;
    }
    proof {
        assert(va.skip(args@.len() as int) =~= Seq::<Val>::empty());
    }
    Ok(acc)
}

/// Language equality of two values, per [`val_eq`].
pub fn value_equal(a: &Value, b: &Value) -> (r: bool)
    ensures
        r == val_eq(a@, b@),
    decreases *a,
{
    match (a, b) {
        (Value::Nil, Value::Nil) => true,
        (Value::Bool(x), Value::Bool(y)) => *x == *y,
        (Value::Number(x), Value::Number(y)) => *x == *y,
        (Value::Symbol(x), Value::Symbol(y)) => chars_eq(x, y),
        (Value::Str(x), Value::Str(y)) => chars_eq(x, y),
        (Value::Builtin(x), Value::Builtin(y)) => *x == *y,
        (Value::Lambda(x), Value::Lambda(y)) => x.id == y.id,
        (Value::List(x), Value::List(y)) => list_equal(x, y),
        _ => false,
    }
}

/// Elementwise language equality of two lists, per [`vals_eq`].
fn list_equal(x: &List, y: &List) -> (r: bool)
    ensures
        r == vals_eq(x@, y@),
    decreases *x,
{
    match (x, y) {
        (List::End, List::End) => true,
        (List::Node(a), List::Node(b)) => {
            proof {
                assert(x@.drop_first() =~= a.cdr@);
                assert(y@.drop_first() =~= b.cdr@);
                assert(x@[0] == a.car@);
                assert(y@[0] == b.car@);
            }
            let h = value_equal(&a.car, &b.car);
            let t = list_equal(&a.cdr, &b.cdr);
            proof {
                if x@.len() != y@.len() {
                    assert(!vals_eq(a.cdr@, b.cdr@));
                }
            }
            h && t
        },
        (List::End, List::Node(_)) => false,
        (List::Node(_), List::End) => false,
    }
}

/// Lexicographic comparison of two texts, per [`str_lt`].
#[verifier::loop_isolation(false)]
fn str_less(a: &Vec<char>, b: &Vec<char>) -> (r: bool)
    ensures
        r == str_lt(a@, b@),
{
    proof {
        assert(a@.skip(0) =~= a@);
        assert(b@.skip(0) =~= b@);
    }
    let mut i: usize = 0;
    while i < a.len() && i < b.len()
        invariant
            i <= a@.len(),
            i <= b@.len(),
            str_lt(a@, b@) == str_lt(a@.skip(i as int), b@.skip(i as int)),
        decreases a@.len() - i,
    {
        let ca = a[i] as u32;
        let cb = b[i] as u32;
        proof {
            assert(a@.skip(i as int)[0] == a@[i as int]);
            assert(b@.skip(i as int)[0] == b@[i as int]);
            assert(a@.skip(i as int).drop_first() =~= a@.skip(i as int + 1));
            assert(b@.skip(i as int).drop_first() =~= b@.skip(i as int + 1));
        }
        if ca != cb {
            return ca < cb;
        }
        i = i + 1;
    }
    proof {
        if i == a@.len() {
            assert(a@.skip(i as int) =~= Seq::<char>::empty());
        }
        if i == b@.len() {
            assert(b@.skip(i as int) =~= Seq::<char>::empty());
        }
    }
    a.len() < b.len()
}

/// False-ish test, per [`falsish`].
fn is_falsish(v: &Value) -> (r: bool)
    ensures
        r == falsish(v@),
{
    match v {
        Value::Nil => true,
        Value::Bool(b) => !*b,
        _ => false,
    }
}

/// The parameter names of a `lambda` form, per [`param_names`].
fn extract_params(elems: &List) -> (r: Result<Vec<Vec<char>>, RuntimeError>)
    ensures
        match (r, param_names(elems@)) {
            (Ok(v), Ok(names)) => names_view(v@) == names,
            (Err(e), Err(m)) => e@ == m,
            _ => false,
        },
    decreases *elems,
{
    match elems {
        List::End => {
            let r: Vec<Vec<char>> = Vec::new();
            proof {
                assert(names_view(r@) =~= Seq::<Seq<char>>::empty());
            }
            Ok(r)
        },
        List::Node(c) => {
            proof {
                assert(elems@[0] == c.car@);
                assert(elems@.drop_first() =~= c.cdr@);
            }
            match &c.car {
                Value::Symbol(s) => match extract_params(&c.cdr) {
                    Ok(rest) => {
                        let mut rest = rest;
                        let ghost pre = rest@;
                        rest.insert(0, crate::data::clone_chars(s));
                        proof {
                            assert(rest@ =~= seq![rest@[0]] + pre);
                            assert(rest@[0]@ == s@);
                            assert(names_view(rest@) =~= seq![s@] + names_view(pre));
                        }
                        Ok(rest)
                    },
                    Err(e) => Err(e),
                },
                other => Err(RuntimeError::InvalidArgType(Ty::Symbol, other.ty())),
            }
        },
    }
}

/// Evaluates the body expressions from index `i` on in order, per
/// [`ev_seq`]: the value of the last one, or `nil` for an empty tail.
pub fn eval_seq(sc: &mut Scope, exprs: &Vec<Value>, i: usize, env: usize, fuel: u64) -> (r: Result<
    Value,
    RuntimeError,
>)
    requires
        old(sc).wf(),
        env < old(sc)@.frames.len(),
        i <= exprs@.len(),
        vals_valid(vals_view(exprs@), old(sc)@.frames.len() as nat),
    ensures
        final(sc).wf(),
        old(sc)@.frames.len() <= final(sc)@.frames.len(),
        ({
            let (st2, r2) = crate::semantics::ev_seq(
                old(sc)@,
                vals_view(exprs@).skip(i as int),
                env as int,
                fuel as nat,
            );
            final(sc)@ == st2 && res_view(r) == r2
        }),
        r is Ok ==> val_valid(r->Ok_0@, final(sc)@.frames.len() as nat),
    decreases fuel, 1int,
{
    if fuel == 0 {
        return Err(RuntimeError::StackOverflow);
    }
    let ghost va = vals_view(exprs@);
    let ghost n0 = old(sc)@.frames.len() as nat;
    proof {
        lemma_vals_view_elts(exprs@);
        lemma_vals_valid_index(va, n0);
    }
    if i == exprs.len() {
        proof {
            assert(va.skip(i as int) =~= Seq::<Val>::empty());
        }
        return Ok(Value::Nil);
    }
    proof {
        assert(va.skip(i as int)[0] == va[i as int]);
        assert(va.skip(i as int).drop_first() =~= va.skip(i as int + 1));
    }
    let v = exprs[i].eval(sc, env, fuel - 1);
    if i + 1 == exprs.len() {
        return v;
    }
    match v {
        Err(e) => Err(e),
        Ok(_) => {
            proof {
                lemma_vals_valid_grow(va, n0, sc@.frames.len() as nat);
            }
            eval_seq(sc, exprs, i + 1, env, fuel - 1)
        },
    }
}

/// Invokes a callable on the elements of `args`, per the reference
/// semantics [`crate::semantics::invoke`]: with `do_ev` the arguments are
/// first evaluated where the callable's discipline asks for it, without it
/// they are passed verbatim.
pub fn invoke(sc: &mut Scope, f: &Value, args: &List, env: usize, do_ev: bool, fuel: u64) -> (r:
    Result<Value, RuntimeError>)
    requires
        old(sc).wf(),
        env < old(sc)@.frames.len(),
        val_valid(f@, old(sc)@.frames.len() as nat),
        vals_valid(args@, old(sc)@.frames.len() as nat),
    ensures
        final(sc).wf(),
        old(sc)@.frames.len() <= final(sc)@.frames.len(),
        ({
            let (st2, r2) = crate::semantics::invoke(
                old(sc)@,
                f@,
                args@,
                env as int,
                do_ev,
                fuel as nat,
            );
            final(sc)@ == st2 && res_view(r) == r2
        }),
        r is Ok ==> val_valid(r->Ok_0@, final(sc)@.frames.len() as nat),
    decreases fuel, 1int,
{
    if fuel == 0 {
        return Err(RuntimeError::StackOverflow);
    }
    let ghost n0 = old(sc)@.frames.len() as nat;
    match f {
        Value::Builtin(b) => {
            if do_ev && b.do_eval() {
                match args.eval(sc, env, fuel - 1) {
                    Ok(vals) => apply_builtin(sc, *b, vals, env, fuel - 1),
                    Err(e) => Err(e),
                }
            } else {
                let vals = args.iter();
                apply_builtin(sc, *b, vals, env, fuel - 1)
            }
        },
        Value::Lambda(l) => {
            if do_ev {
                match args.eval(sc, env, fuel - 1) {
                    Ok(vals) => {
                        proof {
                            lemma_val_valid_grow(f@, n0, sc@.frames.len() as nat);
                        }
                        l.call(sc, vals, fuel - 1)
                    },
                    Err(e) => Err(e),
                }
            } else {
                let vals = args.iter();
                l.call(sc, vals, fuel - 1)
            }
        },
        other => Err(RuntimeError::InvalidCall(other.ty())),
    }
}

/// `let` and `set`, per [`crate::semantics::ev_assign`]: the first
/// argument must be an unevaluated symbol, the second is evaluated and
/// bound, and the bound value is returned.
fn bi_assign(sc: &mut Scope, args: Vec<Value>, env: usize, mutate: bool, fuel: u64) -> (r: Result<
    Value,
    RuntimeError,
>)
    requires
        old(sc).wf(),
        env < old(sc)@.frames.len(),
        vals_valid(vals_view(args@), old(sc)@.frames.len() as nat),
    ensures
        final(sc).wf(),
        old(sc)@.frames.len() <= final(sc)@.frames.len(),
        ({
            let (st2, r2) = crate::semantics::ev_assign(
                old(sc)@,
                vals_view(args@),
                env as int,
                mutate,
                fuel as nat,
            );
            final(sc)@ == st2 && res_view(r) == r2
        }),
        r is Ok ==> val_valid(r->Ok_0@, final(sc)@.frames.len() as nat),
    decreases fuel, 0int,
{
    if fuel == 0 {
        return Err(RuntimeError::StackOverflow);
    }
    let ghost va = vals_view(args@);
    let ghost n0 = old(sc)@.frames.len() as nat;
    proof {
        lemma_vals_view_elts(args@);
        lemma_vals_valid_index(va, n0);
    }
    if args.len() == 0 {
        return Err(RuntimeError::InvalidArgNum(2, 0));
    }
    match &args[0] {
        Value::Symbol(name) => {
            if args.len() < 2 {
                return Err(RuntimeError::InvalidArgNum(2, 1));
            }
            match args[1].eval(sc, env, fuel - 1) {
                Err(e) => Err(e),
                Ok(v) => {
                    let ghost st1 = sc@;
                    let ghost vm = v@;
                    let stored = clone_value(&v);
                    if mutate {
                        sc.set(env, name, stored);
                        proof {
                            crate::scope::lemma_set_at_wf(st1, env as int, name@, vm);
                        }
                    } else {
                        sc.decl(env, name, stored);
                        proof {
                            crate::scope::lemma_decl_at_wf(st1, env as int, name@, vm);
                        }
                    }
                    proof {
                        lemma_val_valid_grow(vm, st1.frames.len() as nat, sc@.frames.len() as nat);
                    }
                    Ok(v)
                },
            }
        },
        other => Err(RuntimeError::InvalidArgType(Ty::Symbol, other.ty())),
    }
}

/// `and` from index `i` on, per [`crate::semantics::ev_and`].
fn bi_and(sc: &mut Scope, args: &Vec<Value>, i: usize, last: Value, env: usize, fuel: u64) -> (r:
    Result<Value, RuntimeError>)
    requires
        old(sc).wf(),
        env < old(sc)@.frames.len(),
        i <= args@.len(),
        vals_valid(vals_view(args@), old(sc)@.frames.len() as nat),
        val_valid(last@, old(sc)@.frames.len() as nat),
    ensures
        final(sc).wf(),
        old(sc)@.frames.len() <= final(sc)@.frames.len(),
        ({
            let (st2, r2) = crate::semantics::ev_and(
                old(sc)@,
                vals_view(args@).skip(i as int),
                last@,
                env as int,
                fuel as nat,
            );
            final(sc)@ == st2 && res_view(r) == r2
        }),
        r is Ok ==> val_valid(r->Ok_0@, final(sc)@.frames.len() as nat),
    decreases fuel, 0int,
{
    if fuel == 0 {
        return Err(RuntimeError::StackOverflow);
    }
    let ghost va = vals_view(args@);
    let ghost n0 = old(sc)@.frames.len() as nat;
    proof {
        lemma_vals_view_elts(args@);
        lemma_vals_valid_index(va, n0);
    }
    if i == args.len() {
        proof {
            assert(va.skip(i as int) =~= Seq::<Val>::empty());
        }
        return Ok(last);
    }
    proof {
        assert(va.skip(i as int)[0] == va[i as int]);
        assert(va.skip(i as int).drop_first() =~= va.skip(i as int + 1));
    }
    match args[i].eval(sc, env, fuel - 1) {
        Err(e) => Err(e),
        Ok(v) => {
            if is_falsish(&v) {
                Ok(v)
            } else {
                proof {
                    lemma_vals_valid_grow(va, n0, sc@.frames.len() as nat);
                }
                bi_and(sc, args, i + 1, v, env, fuel - 1)
            }
        },
    }
}

/// `or` from index `i` on, per [`crate::semantics::ev_or`].
fn bi_or(sc: &mut Scope, args: &Vec<Value>, i: usize, last: Value, env: usize, fuel: u64) -> (r:
    Result<Value, RuntimeError>)
    requires
        old(sc).wf(),
        env < old(sc)@.frames.len(),
        i <= args@.len(),
        vals_valid(vals_view(args@), old(sc)@.frames.len() as nat),
        val_valid(last@, old(sc)@.frames.len() as nat),
    ensures
        final(sc).wf(),
        old(sc)@.frames.len() <= final(sc)@.frames.len(),
        ({
            let (st2, r2) = crate::semantics::ev_or(
                old(sc)@,
                vals_view(args@).skip(i as int),
                last@,
                env as int,
                fuel as nat,
            );
            final(sc)@ == st2 && res_view(r) == r2
        }),
        r is Ok ==> val_valid(r->Ok_0@, final(sc)@.frames.len() as nat),
    decreases fuel, 0int,
{
    if fuel == 0 {
        return Err(RuntimeError::StackOverflow);
    }
    let ghost va = vals_view(args@);
    let ghost n0 = old(sc)@.frames.len() as nat;
    proof {
        lemma_vals_view_elts(args@);
        lemma_vals_valid_index(va, n0);
    }
    if i == args.len() {
        proof {
            assert(va.skip(i as int) =~= Seq::<Val>::empty());
        }
        return Ok(last);
    }
    proof {
        assert(va.skip(i as int)[0] == va[i as int]);
        assert(va.skip(i as int).drop_first() =~= va.skip(i as int + 1));
    }
    match args[i].eval(sc, env, fuel - 1) {
        Err(e) => Err(e),
        Ok(v) => {
            if !is_falsish(&v) {
                Ok(v)
            } else {
                proof {
                    lemma_vals_valid_grow(va, n0, sc@.frames.len() as nat);
                }
                bi_or(sc, args, i + 1, v, env, fuel - 1)
            }
        },
    }
}

/// `map` over the elements, per [`crate::semantics::ev_map`].
fn bi_map(sc: &mut Scope, f: &Value, elems: &List, env: usize, fuel: u64) -> (r: Result<
    List,
    RuntimeError,
>)
    requires
        old(sc).wf(),
        env < old(sc)@.frames.len(),
        val_valid(f@, old(sc)@.frames.len() as nat),
        vals_valid(elems@, old(sc)@.frames.len() as nat),
    ensures
        final(sc).wf(),
        old(sc)@.frames.len() <= final(sc)@.frames.len(),
        ({
            let (st2, r2) = crate::semantics::ev_map(
                old(sc)@,
                f@,
                elems@,
                env as int,
                fuel as nat,
            );
            final(sc)@ == st2 && match (r, r2) {
                (Ok(l), Ok(m)) => l@ == m,
                (Err(e), Err(m)) => e@ == m,
                _ => false,
            }
        }),
        r is Ok ==> vals_valid(r->Ok_0@, final(sc)@.frames.len() as nat),
    decreases fuel, 1int,
{
    if fuel == 0 {
        return Err(RuntimeError::StackOverflow);
    }
    let ghost n0 = old(sc)@.frames.len() as nat;
    match elems {
        List::End => Ok(List::End),
        List::Node(c) => {
            proof {
                assert(elems@[0] == c.car@);
                assert(elems@.drop_first() =~= c.cdr@);
            }
            let arg = clone_value(&c.car).wrap();
            proof {
                lemma_vals_valid_index(arg@, n0);
            }
            let v = match invoke(sc, f, &arg, env, false, fuel - 1) {
                Ok(v) => v,
                Err(e) => {
                    return Err(e);
                },
            };
            let ghost n1 = sc@.frames.len() as nat;
            let ghost vm = v@;
            proof {
                lemma_val_valid_grow(f@, n0, n1);
                lemma_vals_valid_grow(c.cdr@, n0, n1);
            }
            let rest = match bi_map(sc, f, &c.cdr, env, fuel - 1) {
                Ok(l) => l,
                Err(e) => {
                    return Err(e);
                },
            };
            let ghost n2 = sc@.frames.len() as nat;
            let ghost restm = rest@;
            proof {
                lemma_val_valid_grow(vm, n1, n2);
            }
            let out = List::cons(v, rest);
            proof {
                lemma_vals_valid_index(restm, n2);
                let s2 = seq![vm] + restm;
                assert forall|k: int| 0 <= k < s2.len() implies val_valid(#[trigger] s2[k], n2) by {
                    if k > 0 {
                        assert(s2[k] == restm[k - 1]);
                    }
                }
                lemma_vals_valid_index(s2, n2);
            }
            Ok(out)
        },
    }
}

/// `fold` over the elements, per [`crate::semantics::ev_fold`].
fn bi_fold(sc: &mut Scope, f: &Value, acc: Value, elems: &List, env: usize, fuel: u64) -> (r:
    Result<Value, RuntimeError>)
    requires
        old(sc).wf(),
        env < old(sc)@.frames.len(),
        val_valid(f@, old(sc)@.frames.len() as nat),
        val_valid(acc@, old(sc)@.frames.len() as nat),
        vals_valid(elems@, old(sc)@.frames.len() as nat),
    ensures
        final(sc).wf(),
        old(sc)@.frames.len() <= final(sc)@.frames.len(),
        ({
            let (st2, r2) = crate::semantics::ev_fold(
                old(sc)@,
                f@,
                acc@,
                elems@,
                env as int,
                fuel as nat,
            );
            final(sc)@ == st2 && res_view(r) == r2
        }),
        r is Ok ==> val_valid(r->Ok_0@, final(sc)@.frames.len() as nat),
    decreases fuel, 1int,
{
    if fuel == 0 {
        return Err(RuntimeError::StackOverflow);
    }
    let ghost n0 = old(sc)@.frames.len() as nat;
    match elems {
        List::End => Ok(acc),
        List::Node(c) => {
            proof {
                assert(elems@[0] == c.car@);
                assert(elems@.drop_first() =~= c.cdr@);
            }
            let ghost accm = acc@;
            let arglist = List::cons(acc, clone_value(&c.car).wrap());
            proof {
                assert(arglist@ =~= seq![accm, c.car@]);
                lemma_vals_valid_index(arglist@, n0);
            }
            let v = match invoke(sc, f, &arglist, env, false, fuel - 1) {
                Ok(v) => v,
                Err(e) => {
                    return Err(e);
                },
            };
            proof {
                lemma_val_valid_grow(f@, n0, sc@.frames.len() as nat);
                lemma_vals_valid_grow(c.cdr@, n0, sc@.frames.len() as nat);
            }
            bi_fold(sc, f, v, &c.cdr, env, fuel - 1)
        },
    }
}

/// Applies a builtin to its arguments, per
/// [`crate::semantics::apply_builtin`]: the special forms receive them
/// unevaluated, the plain functions their values.
#[verifier::rlimit(100)]
pub fn apply_builtin(sc: &mut Scope, b: Builtin, args: Vec<Value>, env: usize, fuel: u64) -> (r:
    Result<Value, RuntimeError>)
    requires
        old(sc).wf(),
        env < old(sc)@.frames.len(),
        vals_valid(vals_view(args@), old(sc)@.frames.len() as nat),
    ensures
        final(sc).wf(),
        old(sc)@.frames.len() <= final(sc)@.frames.len(),
        ({
            let (st2, r2) = crate::semantics::apply_builtin(
                old(sc)@,
                b,
                vals_view(args@),
                env as int,
                fuel as nat,
            );
            final(sc)@ == st2 && res_view(r) == r2
        }),
        r is Ok ==> val_valid(r->Ok_0@, final(sc)@.frames.len() as nat),
    decreases fuel, 1int,
{
    if fuel == 0 {
        return Err(RuntimeError::StackOverflow);
    }
    let ghost va = vals_view(args@);
    let ghost n0 = old(sc)@.frames.len() as nat;
    proof {
        lemma_vals_view_elts(args@);
        lemma_vals_valid_index(va, n0);
    }
    match b {
        Builtin::Quote => {
            if args.len() == 0 {
                Err(RuntimeError::InvalidArgNum(1, 0))
            } else {
                Ok(clone_value(&args[0]))
            }
        },
        Builtin::Let => bi_assign(sc, args, env, false, fuel),
        Builtin::Assign => bi_assign(sc, args, env, true, fuel),
        Builtin::If => {
            if args.len() == 0 {
                Err(RuntimeError::InvalidArgNum(2, 0))
            } else if args.len() == 1 {
                Err(RuntimeError::InvalidArgNum(2, 1))
            } else {
                match args[0].eval(sc, env, fuel - 1) {
                    Err(e) => Err(e),
                    Ok(c) => {
                        proof {
                            lemma_vals_valid_grow(va, n0, sc@.frames.len() as nat);
                            lemma_vals_valid_index(va, sc@.frames.len() as nat);
                        }
                        if is_falsish(&c) {
                            if args.len() >= 3 {
                                args[2].eval(sc, env, fuel - 1)
                            } else {
                                Ok(Value::Nil)
                            }
                        } else {
                            args[1].eval(sc, env, fuel - 1)
                        }
                    },
                }
            }
        },
        Builtin::And => {
            let r = bi_and(sc, &args, 0, Value::Bool(true), env, fuel);
            proof {
                assert(va.skip(0) =~= va);
            }
            r
        },
        Builtin::Or => {
            let r = bi_or(sc, &args, 0, Value::Bool(false), env, fuel);
            proof {
                assert(va.skip(0) =~= va);
            }
            r
        },
        Builtin::Begin => {
            let h = sc.local(env);
            proof {
                lemma_vals_valid_grow(va, n0, sc@.frames.len() as nat);
            }
            let r = eval_seq(sc, &args, 0, h, fuel - 1);
            proof {
                assert(va.skip(0) =~= va);
            }
            r
        },
        Builtin::Lambda => {
            if args.len() == 0 {
                Err(RuntimeError::InvalidArgNum(1, 0))
            } else {
                match &args[0] {
                    Value::List(params) => match extract_params(params) {
                        Ok(names) => {
                            let id = sc.next_id;
                            sc.next_id = sc.next_id.wrapping_add(1);
                            proof {
                                assert(sc@ =~~= StateV {
                                    next_id: vstd::wrapping::u64_specs::wrapping_add(
                                        old(sc)@.next_id,
                                        1,
                                    ),
                                    ..old(sc)@
                                });
                            }
                            let mut body = args;
                            let _first = body.remove(0);
                            proof {
                                assert(body@ =~= args@.drop_first());
                                lemma_vals_view_elts(body@);
                                assert(vals_view(body@) =~= va.drop_first());
                            }
                            let lam = Lambda::new(id, names, body, env);
                            let ghost lamm = lam@;
                            let r = Value::Lambda(Box::new(lam));
                            proof {
                                assert(r@ == Val::Lambda(lamm));
                                lemma_vals_valid_index(va.drop_first(), n0);
                                assert forall|k: int|
                                    0 <= k < va.drop_first().len() implies val_valid(
                                    #[trigger] va.drop_first()[k],
                                    n0,
                                ) by {
                                    assert(va.drop_first()[k] == va[k + 1]);
                                }
                            }
                            Ok(r)
                        },
                        Err(e) => Err(e),
                    },
                    other => Err(RuntimeError::InvalidArgType(Ty::List, other.ty())),
                }
            }
        },
        Builtin::Funcall => {
            if args.len() == 0 {
                Ok(Value::Nil)
            } else {
                let mut rest = args;
                let first = rest.remove(0);
                proof {
                    assert(rest@ =~= args@.drop_first());
                    lemma_vals_view_elts(rest@);
                    assert(vals_view(rest@) =~= va.drop_first());
                    lemma_vals_valid_index(va.drop_first(), n0);
                    assert forall|k: int| 0 <= k < va.drop_first().len() implies val_valid(
                        #[trigger] va.drop_first()[k],
                        n0,
                    ) by {
                        assert(va.drop_first()[k] == va[k + 1]);
                    }
                }
                let lst = List::from_de_iter(rest);
                invoke(sc, &first, &lst, env, false, fuel - 1)
            }
        },
        Builtin::Apply => {
            if args.len() == 0 {
                Err(RuntimeError::InvalidArgNum(2, 0))
            } else if args.len() == 1 {
                Err(RuntimeError::InvalidArgNum(2, 1))
            } else {
                match &args[1] {
                    Value::List(elems) => invoke(sc, &args[0], elems, env, false, fuel - 1),
                    other => Err(RuntimeError::InvalidArgType(Ty::List, other.ty())),
                }
            }
        },
        Builtin::Eval => {
            if args.len() == 0 {
                Err(RuntimeError::InvalidArgNum(1, 0))
            } else {
                args[0].eval(sc, env, fuel - 1)
            }
        },
        Builtin::MapFn => {
            if args.len() == 0 {
                Err(RuntimeError::InvalidArgNum(2, 0))
            } else {
                match &args[0] {
                    Value::Builtin(_) | Value::Lambda(_) => {
                        if args.len() == 1 {
                            Err(RuntimeError::InvalidArgNum(2, 1))
                        } else {
                            match &args[1] {
                                Value::List(elems) => match bi_map(
                                    sc,
                                    &args[0],
                                    elems,
                                    env,
                                    fuel - 1,
                                ) {
                                    Ok(l) => Ok(Value::List(l)),
                                    Err(e) => Err(e),
                                },
                                other => Err(RuntimeError::InvalidArgType(Ty::List, other.ty())),
                            }
                        }
                    },
                    other => Err(RuntimeError::InvalidArgType(Ty::Function, other.ty())),
                }
            }
        },
        Builtin::Fold => {
            if args.len() == 0 {
                Err(RuntimeError::InvalidArgNum(3, 0))
            } else {
                match &args[0] {
                    Value::Builtin(_) | Value::Lambda(_) => {
                        if args.len() == 1 {
                            Err(RuntimeError::InvalidArgNum(3, 1))
                        } else if args.len() == 2 {
                            Err(RuntimeError::InvalidArgNum(3, 2))
                        } else {
                            match &args[2] {
                                Value::List(elems) => bi_fold(
                                    sc,
                                    &args[0],
                                    clone_value(&args[1]),
                                    elems,
                                    env,
                                    fuel - 1,
                                ),
                                other => Err(RuntimeError::InvalidArgType(Ty::List, other.ty())),
                            }
                        }
                    },
                    other => Err(RuntimeError::InvalidArgType(Ty::Function, other.ty())),
                }
            }
        },
        Builtin::Car => {
            if args.len() == 0 {
                Err(RuntimeError::InvalidArgNum(1, 0))
            } else {
                match &args[0] {
                    Value::List(l) => match l {
                        List::Node(c) => {
                            proof {
                                assert(l@[0] == c.car@);
                            }
                            Ok(clone_value(&c.car))
                        },
                        List::End => Ok(Value::Nil),
                    },
                    other => Err(RuntimeError::InvalidArgType(Ty::List, other.ty())),
                }
            }
        },
        Builtin::Cdr => {
            if args.len() == 0 {
                Err(RuntimeError::InvalidArgNum(1, 0))
            } else {
                match &args[0] {
                    Value::List(l) => match l {
                        List::Node(c) => {
                            proof {
                                assert(l@.drop_first() =~= c.cdr@);
                            }
                            Ok(Value::List(crate::data::clone_list(&c.cdr)))
                        },
                        List::End => Ok(Value::Nil),
                    },
                    other => Err(RuntimeError::InvalidArgType(Ty::List, other.ty())),
                }
            }
        },
        Builtin::Cons => {
            if args.len() == 0 {
                Err(RuntimeError::InvalidArgNum(2, 0))
            } else if args.len() == 1 {
                Err(RuntimeError::InvalidArgNum(2, 1))
            } else {
                let mut rest = args;
                let x = rest.remove(0);
                let y = rest.remove(0);
                proof {
                    assert(x@ == va[0]);
                    assert(y@ == va[1]);
                }
                match y {
                    Value::List(l) => {
                        let out = List::cons(x, l);
                        proof {
                            lemma_vals_valid_index(out@, n0);
                            assert forall|k: int| 0 <= k < out@.len() implies val_valid(
                                #[trigger] out@[k],
                                n0,
                            ) by {
                                if k > 0 {
                                    assert(out@[k] == (va[1])->List_0[k - 1]);
                                    crate::data::lemma_vals_valid_index((va[1])->List_0, n0);
                                }
                            }
                        }
                        Ok(Value::List(out))
                    },
                    other => Err(RuntimeError::InvalidArgType(Ty::List, other.ty())),
                }
            }
        },
        Builtin::ListFn => {
            let r = List::from_de_iter(args);
            Ok(Value::List(r))
        },
        Builtin::Not => {
            if args.len() == 0 {
                Err(RuntimeError::InvalidArgNum(1, 0))
            } else {
                Ok(Value::Bool(is_falsish(&args[0])))
            }
        },
        Builtin::Add => {
            let r = arith_fold(&args, 0, 0, false);
            proof {
                assert(va.skip(0) =~= va);
            }
            match r {
                Ok(n) => Ok(Value::Number(n)),
                Err(e) => Err(e),
            }
        },
        Builtin::Mul => {
            let r = arith_fold(&args, 0, 1, true);
            proof {
                assert(va.skip(0) =~= va);
            }
            match r {
                Ok(n) => Ok(Value::Number(n)),
                Err(e) => Err(e),
            }
        },
        Builtin::Sub => {
            if args.len() == 0 {
                Err(RuntimeError::InvalidArgNum(1, 0))
            } else {
                match &args[0] {
                    Value::Number(n) => {
                        if args.len() == 1 {
                            Ok(Value::Number(0i64.wrapping_sub(*n)))
                        } else {
                            let r = arith_fold_inv(&args, 1, *n, false);
                            proof {
                                assert(va.skip(1) =~= va.drop_first());
                            }
                            match r {
                                Ok(m) => Ok(Value::Number(m)),
                                Err(e) => Err(e),
                            }
                        }
                    },
                    other => Err(RuntimeError::InvalidArgType(Ty::Number, other.ty())),
                }
            }
        },
        Builtin::Div => {
            if args.len() == 0 {
                Err(RuntimeError::InvalidArgNum(1, 0))
            } else {
                match &args[0] {
                    Value::Number(n) => {
                        if args.len() == 1 {
                            Ok(Value::Number(div_total(1, *n)))
                        } else {
                            let r = arith_fold_inv(&args, 1, *n, true);
                            proof {
                                assert(va.skip(1) =~= va.drop_first());
                            }
                            match r {
                                Ok(m) => Ok(Value::Number(m)),
                                Err(e) => Err(e),
                            }
                        }
                    },
                    other => Err(RuntimeError::InvalidArgType(Ty::Number, other.ty())),
                }
            }
        },
        Builtin::Equal => {
            if args.len() == 0 {
                Err(RuntimeError::InvalidArgNum(2, 0))
            } else if args.len() == 1 {
                Err(RuntimeError::InvalidArgNum(2, 1))
            } else {
                Ok(Value::Bool(value_equal(&args[0], &args[1])))
            }
        },
        Builtin::Lt | Builtin::Gt | Builtin::Le | Builtin::Ge => {
            if args.len() == 0 {
                Err(RuntimeError::InvalidArgNum(2, 0))
            } else if args.len() == 1 {
                Err(RuntimeError::InvalidArgNum(2, 1))
            } else {
                compare_vals(b, &args[0], &args[1])
            }
        },
        Builtin::Atom => {
            if args.len() == 0 {
                Err(RuntimeError::InvalidArgNum(1, 0))
            } else {
                match &args[0] {
                    Value::List(l) => match l {
                        List::End => Ok(Value::Bool(true)),
                        List::Node(_) => Ok(Value::Bool(false)),
                    },
                    _ => Ok(Value::Bool(true)),
                }
            }
        },
        Builtin::TypeOf => {
            if args.len() == 0 {
                Err(RuntimeError::InvalidArgNum(1, 0))
            } else {
                Ok(Value::Str(chars_of(args[0].type_text())))
            }
        },
        Builtin::Display => {
            if args.len() == 0 {
                Err(RuntimeError::InvalidArgNum(1, 0))
            } else {
                let line = display_chars(&args[0]);
                sc.push_output(line);
                Ok(clone_value(&args[0]))
            }
        },
        Builtin::Debug => {
            if args.len() == 0 {
                Err(RuntimeError::InvalidArgNum(1, 0))
            } else {
                let line = debug_chars(&args[0]);
                sc.push_output(line);
                Ok(clone_value(&args[0]))
            }
        },
    }
}

/// A comparison builtin applied to two values, per [`ev_compare`].
fn compare_vals(b: Builtin, x: &Value, y: &Value) -> (r: Result<Value, RuntimeError>)
    requires
        b == Builtin::Lt || b == Builtin::Gt || b == Builtin::Le || b == Builtin::Ge,
    ensures
        match (r, ev_compare(b, x@, y@)) {
            (Ok(v), Ok(m)) => v@ == m,
            (Err(e), Err(m)) => e@ == m,
            _ => false,
        },
{
    match (x, y) {
        (Value::Number(p), Value::Number(q)) => Ok(
            Value::Bool(
                match b {
                    Builtin::Lt => *p < *q,
                    Builtin::Gt => *p > *q,
                    Builtin::Le => *p <= *q,
                    _ => *p >= *q,
                },
            ),
        ),
        (Value::Str(s1), Value::Str(s2)) => Ok(
            Value::Bool(
                match b {
                    Builtin::Lt => str_less(s1, s2),
                    Builtin::Gt => str_less(s2, s1),
                    Builtin::Le => !str_less(s2, s1),
                    _ => !str_less(s1, s2),
                },
            ),
        ),
        _ => Err(RuntimeError::InvalidComp(x.ty(), y.ty())),
    }
}

} // verus!
