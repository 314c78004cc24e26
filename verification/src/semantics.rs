//! The reference semantics of evaluation.
//!
//! [`ev`] is a big-step interpreter over the ghost models: it takes the
//! interpreter state, an expression value, a frame handle and a recursion
//! budget, and yields the new state and the result.  Every step that could
//! recurse spends one unit of fuel, and an exhausted budget yields the
//! `StackOverflow` error; apart from that budget the functions define the
//! language exactly, and the executable evaluator is proved equal to them.
//!
//! Arithmetic wraps around on 64-bit signed overflow, and a division by
//! zero yields zero.

use vstd::prelude::*;

use crate::builtins::{spec_do_eval, Builtin};
use crate::data::{ty_of, ErrV, Ty, Val};
use crate::lambda::LambdaV;
use crate::scope::{decl_at, lookup, set_at, FrameV, StateV};
use crate::value::{debug_of, display_of, ty_name};

verus! {

/// False-ish: only `nil` and `#f` fail a condition.
pub open spec fn falsish(v: Val) -> bool {
    v == Val::Nil || v == Val::Bool(false)
}

/// Language equality: structural on data, by creation stamp (identity) on
/// functions.
pub open spec fn val_eq(a: Val, b: Val) -> bool
    decreases a,
{
    match (a, b) {
        (Val::Nil, Val::Nil) => true,
        (Val::Bool(x), Val::Bool(y)) => x == y,
        (Val::Num(x), Val::Num(y)) => x == y,
        (Val::Symbol(x), Val::Symbol(y)) => x == y,
        (Val::Str(x), Val::Str(y)) => x == y,
        (Val::Builtin(x), Val::Builtin(y)) => x == y,
        (Val::Lambda(x), Val::Lambda(y)) => x.id == y.id,
        (Val::List(x), Val::List(y)) => vals_eq(x, y),
        _ => false,
    }
}

/// Elementwise language equality of two lists.
pub open spec fn vals_eq(a: Seq<Val>, b: Seq<Val>) -> bool
    decreases a,
{
    if a.len() != b.len() {
        false
    } else if a.len() == 0 {
        true
    } else {
        val_eq(a[0], b[0]) && vals_eq(a.drop_first(), b.drop_first())
    }
}

/// Lexicographic order on text, by character value.
pub open spec fn str_lt(a: Seq<char>, b: Seq<char>) -> bool
    decreases a.len(),
{
    if b.len() == 0 {
        false
    } else if a.len() == 0 {
        true
    } else if a[0] as u32 != b[0] as u32 {
        (a[0] as u32) < (b[0] as u32)
    } else {
        str_lt(a.drop_first(), b.drop_first())
    }
}

/// Truncating 64-bit division, total: a zero divisor yields zero, and the
/// one overflowing quotient wraps.
pub open spec fn div64(a: i64, b: i64) -> i64 {
    if b == 0 {
        0
    } else {
        match a.checked_div(b) {
            Some(q) => q,
            None => i64::MIN,
        }
    }
}

/// The frame bindings of a parameter list: names bound to values in order,
/// a repeated name keeping its last value.
pub open spec fn bind_params(params: Seq<Seq<char>>, vals: Seq<Val>) -> Map<Seq<char>, Val>
    decreases params.len(),
{
    if params.len() == 0 {
        Map::empty()
    } else {
        bind_params(params.drop_last(), vals).insert(
            params.last(),
            vals[params.len() - 1],
        )
    }
}

/// The parameter names of a `lambda` form: every element must be a symbol.
pub open spec fn param_names(s: Seq<Val>) -> Result<Seq<Seq<char>>, ErrV>
    decreases s,
{
    if s.len() == 0 {
        Ok(Seq::empty())
    } else {
        match s[0] {
            Val::Symbol(n) => match param_names(s.drop_first()) {
                Ok(rest) => Ok(seq![n] + rest),
                Err(e) => Err(e),
            },
            other => Err(ErrV::InvalidArgType(Ty::Symbol, ty_of(other))),
        }
    }
}

/// Folds `+` or `*` over arguments, failing on the first non-number.
pub open spec fn ev_arith(args: Seq<Val>, acc: i64, mul: bool) -> Result<i64, ErrV>
    decreases args,
{
    if args.len() == 0 {
        Ok(acc)
    } else {
        match args[0] {
            Val::Num(n) => ev_arith(
                args.drop_first(),
                if mul {
                    vstd::wrapping::i64_specs::wrapping_mul(acc, n)
                } else {
                    vstd::wrapping::i64_specs::wrapping_add(acc, n)
                },
                mul,
            ),
            other => Err(ErrV::InvalidArgType(Ty::Number, ty_of(other))),
        }
    }
}

/// Folds `-` or `/` over arguments, failing on the first non-number.
pub open spec fn ev_arith_inv(args: Seq<Val>, acc: i64, div: bool) -> Result<i64, ErrV>
    decreases args,
{
    if args.len() == 0 {
        Ok(acc)
    } else {
        match args[0] {
            Val::Num(n) => ev_arith_inv(
                args.drop_first(),
                if div {
                    div64(acc, n)
                } else {
                    vstd::wrapping::i64_specs::wrapping_sub(acc, n)
                },
                div,
            ),
            other => Err(ErrV::InvalidArgType(Ty::Number, ty_of(other))),
        }
    }
}

/// `-` and `/` over their argument values: one argument applies the
/// inverse (`0 - x`, `1 / x`); more fold from the first argument.
pub open spec fn ev_sub_div(args: Seq<Val>, div: bool) -> Result<i64, ErrV> {
    if args.len() == 0 {
        Err(ErrV::InvalidArgNum(1, 0))
    } else {
        match args[0] {
            Val::Num(n) => if args.len() == 1 {
                if div {
                    Ok(div64(1, n))
                } else {
                    Ok(vstd::wrapping::i64_specs::wrapping_sub(0, n))
                }
            } else {
                ev_arith_inv(args.drop_first(), n, div)
            },
            other => Err(ErrV::InvalidArgType(Ty::Number, ty_of(other))),
        }
    }
}

/// A comparison builtin: two numbers or two texts, anything else is an
/// invalid comparison.
pub open spec fn ev_compare(b: Builtin, x: Val, y: Val) -> Result<Val, ErrV> {
    match (x, y) {
        (Val::Num(a), Val::Num(c)) => Ok(
            Val::Bool(
                match b {
                    Builtin::Lt => a < c,
                    Builtin::Gt => a > c,
                    Builtin::Le => a <= c,
                    _ => a >= c,
                },
            ),
        ),
        (Val::Str(a), Val::Str(c)) => Ok(
            Val::Bool(
                match b {
                    Builtin::Lt => str_lt(a, c),
                    Builtin::Gt => str_lt(c, a),
                    Builtin::Le => !str_lt(c, a),
                    _ => !str_lt(a, c),
                },
            ),
        ),
        _ => Err(ErrV::InvalidComp(ty_of(x), ty_of(y))),
    }
}

/// Evaluates a value: atoms evaluate to themselves, a symbol to its
/// binding, and a non-empty list as a call.
pub open spec fn ev(st: StateV, v: Val, env: int, fuel: nat) -> (StateV, Result<Val, ErrV>)
    decreases fuel, 1int,
{
    if fuel == 0 {
        (st, Err(ErrV::StackOverflow))
    } else {
        match v {
            Val::Symbol(s) => match lookup(st, env, s) {
                Some(x) => (st, Ok(x)),
                None => (st, Err(ErrV::UnkSymbol(s))),
            },
            Val::List(elems) => ev_call(st, elems, env, fuel),
            _ => (st, Ok(v)),
        }
    }
}

/// Evaluates a list form: the empty list yields `nil`; otherwise the head
/// is evaluated to a callable, which is invoked on the unevaluated tail
/// with argument evaluation requested.
pub open spec fn ev_call(st: StateV, elems: Seq<Val>, env: int, fuel: nat) -> (
    StateV,
    Result<Val, ErrV>,
)
    decreases fuel, 0int,
{
    if fuel == 0 {
        (st, Err(ErrV::StackOverflow))
    } else if elems.len() == 0 {
        (st, Ok(Val::Nil))
    } else {
        let (st1, hr) = ev(st, elems[0], env, (fuel - 1) as nat);
        match hr {
            Err(e) => (st1, Err(e)),
            Ok(f) => invoke(st1, f, elems.drop_first(), env, true, (fuel - 1) as nat),
        }
    }
}

/// Invokes a callable on arguments.  With `do_ev` set, a builtin whose
/// discipline asks for it, and every lambda, first evaluates the
/// arguments; with `do_ev` clear the arguments are passed verbatim.
/// A non-callable value is an invalid call.
pub open spec fn invoke(
    st: StateV,
    f: Val,
    args: Seq<Val>,
    env: int,
    do_ev: bool,
    fuel: nat,
) -> (StateV, Result<Val, ErrV>)
    decreases fuel, 1int,
{
    if fuel == 0 {
        (st, Err(ErrV::StackOverflow))
    } else {
        match f {
            Val::Builtin(b) => {
                if do_ev && spec_do_eval(b) {
                    let (st1, ar) = ev_args(st, args, env, (fuel - 1) as nat);
                    match ar {
                        Err(e) => (st1, Err(e)),
                        Ok(vals) => apply_builtin(st1, b, vals, env, (fuel - 1) as nat),
                    }
                } else {
                    apply_builtin(st, b, args, env, (fuel - 1) as nat)
                }
            },
            Val::Lambda(l) => {
                if do_ev {
                    let (st1, ar) = ev_args(st, args, env, (fuel - 1) as nat);
                    match ar {
                        Err(e) => (st1, Err(e)),
                        Ok(vals) => lambda_call(st1, l, vals, (fuel - 1) as nat),
                    }
                } else {
                    lambda_call(st, l, args, (fuel - 1) as nat)
                }
            },
            _ => (st, Err(ErrV::InvalidCall(ty_of(f)))),
        }
    }
}

/// Evaluates each element left to right, collecting the values; the first
/// error aborts.
pub open spec fn ev_args(st: StateV, args: Seq<Val>, env: int, fuel: nat) -> (
    StateV,
    Result<Seq<Val>, ErrV>,
)
    decreases fuel, 1int,
{
    if fuel == 0 {
        (st, Err(ErrV::StackOverflow))
    } else if args.len() == 0 {
        (st, Ok(Seq::empty()))
    } else {
        let (st1, r) = ev(st, args[0], env, (fuel - 1) as nat);
        match r {
            Err(e) => (st1, Err(e)),
            Ok(v) => {
                let (st2, rr) = ev_args(st1, args.drop_first(), env, (fuel - 1) as nat);
                match rr {
                    Err(e) => (st2, Err(e)),
                    Ok(rest) => (st2, Ok(seq![v] + rest)),
                }
            },
        }
    }
}

/// Evaluates a sequence of body expressions in order, yielding the value
/// of the last one, or `nil` when the sequence is empty.
pub open spec fn ev_seq(st: StateV, exprs: Seq<Val>, env: int, fuel: nat) -> (
    StateV,
    Result<Val, ErrV>,
)
    decreases fuel, 1int,
{
    if fuel == 0 {
        (st, Err(ErrV::StackOverflow))
    } else if exprs.len() == 0 {
        (st, Ok(Val::Nil))
    } else {
        let (st1, r) = ev(st, exprs[0], env, (fuel - 1) as nat);
        if exprs.len() == 1 {
            (st1, r)
        } else {
            match r {
                Err(e) => (st1, Err(e)),
                Ok(_) => ev_seq(st1, exprs.drop_first(), env, (fuel - 1) as nat),
            }
        }
    }
}

/// Calls a lambda on already-produced argument values: too few values is
/// an arity error; otherwise a fresh frame over the captured environment
/// binds the parameters and the body runs in it.
pub open spec fn lambda_call(st: StateV, l: LambdaV, vals: Seq<Val>, fuel: nat) -> (
    StateV,
    Result<Val, ErrV>,
)
    decreases fuel, 1int,
{
    if fuel == 0 {
        (st, Err(ErrV::StackOverflow))
    } else if vals.len() < l.params.len() {
        (st, Err(ErrV::InvalidArgNum(l.params.len() as usize, vals.len() as usize)))
    } else {
        let frame = FrameV { map: bind_params(l.params, vals), parent: Some(l.env as int) };
        let st1 = StateV { frames: st.frames + seq![frame], ..st };
        ev_seq(st1, l.body, st.frames.len() as int, (fuel - 1) as nat)
    }
}

/// `and`: evaluates left to right with `last` carrying the value so far;
/// the first false-ish value is returned at once and nothing after it is
/// evaluated.
pub open spec fn ev_and(st: StateV, elems: Seq<Val>, last: Val, env: int, fuel: nat) -> (
    StateV,
    Result<Val, ErrV>,
)
    decreases fuel, 0int,
{
    if fuel == 0 {
        (st, Err(ErrV::StackOverflow))
    } else if elems.len() == 0 {
        (st, Ok(last))
    } else {
        let (st1, r) = ev(st, elems[0], env, (fuel - 1) as nat);
        match r {
            Err(e) => (st1, Err(e)),
            Ok(v) => if falsish(v) {
                (st1, Ok(v))
            } else {
                ev_and(st1, elems.drop_first(), v, env, (fuel - 1) as nat)
            },
        }
    }
}

/// `or`: evaluates left to right; the first truthy value is returned at
/// once and nothing after it is evaluated.
pub open spec fn ev_or(st: StateV, elems: Seq<Val>, last: Val, env: int, fuel: nat) -> (
    StateV,
    Result<Val, ErrV>,
)
    decreases fuel, 0int,
{
    if fuel == 0 {
        (st, Err(ErrV::StackOverflow))
    } else if elems.len() == 0 {
        (st, Ok(last))
    } else {
        let (st1, r) = ev(st, elems[0], env, (fuel - 1) as nat);
        match r {
            Err(e) => (st1, Err(e)),
            Ok(v) => if !falsish(v) {
                (st1, Ok(v))
            } else {
                ev_or(st1, elems.drop_first(), v, env, (fuel - 1) as nat)
            },
        }
    }
}

/// `map`: invokes the callable on each element, without evaluating the
/// elements, collecting the results in order.
pub open spec fn ev_map(st: StateV, f: Val, elems: Seq<Val>, env: int, fuel: nat) -> (
    StateV,
    Result<Seq<Val>, ErrV>,
)
    decreases fuel, 1int,
{
    if fuel == 0 {
        (st, Err(ErrV::StackOverflow))
    } else if elems.len() == 0 {
        (st, Ok(Seq::empty()))
    } else {
        let (st1, r) = invoke(st, f, seq![elems[0]], env, false, (fuel - 1) as nat);
        match r {
            Err(e) => (st1, Err(e)),
            Ok(v) => {
                let (st2, rr) = ev_map(st1, f, elems.drop_first(), env, (fuel - 1) as nat);
                match rr {
                    Err(e) => (st2, Err(e)),
                    Ok(rest) => (st2, Ok(seq![v] + rest)),
                }
            },
        }
    }
}

/// `fold`: left fold of the callable over the elements, starting from
/// `acc`, without evaluating the elements.
pub open spec fn ev_fold(st: StateV, f: Val, acc: Val, elems: Seq<Val>, env: int, fuel: nat) -> (
    StateV,
    Result<Val, ErrV>,
)
    decreases fuel, 1int,
{
    if fuel == 0 {
        (st, Err(ErrV::StackOverflow))
    } else if elems.len() == 0 {
        (st, Ok(acc))
    } else {
        let (st1, r) = invoke(st, f, seq![acc, elems[0]], env, false, (fuel - 1) as nat);
        match r {
            Err(e) => (st1, Err(e)),
            Ok(v) => ev_fold(st1, f, v, elems.drop_first(), env, (fuel - 1) as nat),
        }
    }
}

/// `let` and `set`: the first argument must be an unevaluated symbol, the
/// second is evaluated and bound; the bound value is returned.
pub open spec fn ev_assign(st: StateV, args: Seq<Val>, env: int, mutate: bool, fuel: nat) -> (
    StateV,
    Result<Val, ErrV>,
)
    decreases fuel, 0int,
{
    if fuel == 0 {
        (st, Err(ErrV::StackOverflow))
    } else if args.len() == 0 {
        (st, Err(ErrV::InvalidArgNum(2, 0)))
    } else {
        match args[0] {
            Val::Symbol(name) => {
                if args.len() < 2 {
                    (st, Err(ErrV::InvalidArgNum(2, 1)))
                } else {
                    let (st1, r) = ev(st, args[1], env, (fuel - 1) as nat);
                    match r {
                        Err(e) => (st1, Err(e)),
                        Ok(v) => if mutate {
                            (set_at(st1, env, name, v), Ok(v))
                        } else {
                            (decl_at(st1, env, name, v), Ok(v))
                        },
                    }
                }
            },
            other => (st, Err(ErrV::InvalidArgType(Ty::Symbol, ty_of(other)))),
        }
    }
}

/// Applies a builtin to its arguments: the special forms receive them
/// unevaluated, the plain functions receive their values.
pub open spec fn apply_builtin(st: StateV, b: Builtin, args: Seq<Val>, env: int, fuel: nat) -> (
    StateV,
    Result<Val, ErrV>,
)
    decreases fuel, 1int,
{
    if fuel == 0 {
        (st, Err(ErrV::StackOverflow))
    } else {
        match b {
            Builtin::Quote => if args.len() == 0 {
                (st, Err(ErrV::InvalidArgNum(1, 0)))
            } else {
                (st, Ok(args[0]))
            },
            Builtin::Let => ev_assign(st, args, env, false, fuel),
            Builtin::Assign => ev_assign(st, args, env, true, fuel),
            Builtin::If => {
                if args.len() == 0 {
                    (st, Err(ErrV::InvalidArgNum(2, 0)))
                } else if args.len() == 1 {
                    (st, Err(ErrV::InvalidArgNum(2, 1)))
                } else {
                    let (st1, r) = ev(st, args[0], env, (fuel - 1) as nat);
                    match r {
                        Err(e) => (st1, Err(e)),
                        Ok(c) => if falsish(c) {
                            if args.len() >= 3 {
                                ev(st1, args[2], env, (fuel - 1) as nat)
                            } else {
                                (st1, Ok(Val::Nil))
                            }
                        } else {
                            ev(st1, args[1], env, (fuel - 1) as nat)
                        },
                    }
                }
            },
            Builtin::And => ev_and(st, args, Val::Bool(true), env, fuel),
            Builtin::Or => ev_or(st, args, Val::Bool(false), env, fuel),
            Builtin::Begin => {
                let frame = FrameV { map: Map::empty(), parent: Some(env) };
                let st1 = StateV { frames: st.frames + seq![frame], ..st };
                ev_seq(st1, args, st.frames.len() as int, (fuel - 1) as nat)
            },
            Builtin::Lambda => {
                if args.len() == 0 {
                    (st, Err(ErrV::InvalidArgNum(1, 0)))
                } else {
                    match args[0] {
                        Val::List(params) => match param_names(params) {
                            Ok(names) => {
                                let lam = LambdaV {
                                    id: st.next_id,
                                    params: names,
                                    body: args.drop_first(),
                                    env: env as nat,
                                };
                                (
                                    StateV {
                                        next_id: vstd::wrapping::u64_specs::wrapping_add(
                                            st.next_id,
                                            1,
                                        ),
                                        ..st
                                    },
                                    Ok(Val::Lambda(lam)),
                                )
                            },
                            Err(e) => (st, Err(e)),
                        },
                        other => (st, Err(ErrV::InvalidArgType(Ty::List, ty_of(other)))),
                    }
                }
            },
            Builtin::Funcall => if args.len() == 0 {
                (st, Ok(Val::Nil))
            } else {
                invoke(st, args[0], args.drop_first(), env, false, (fuel - 1) as nat)
            },
            Builtin::Apply => {
                if args.len() == 0 {
                    (st, Err(ErrV::InvalidArgNum(2, 0)))
                } else if args.len() == 1 {
                    (st, Err(ErrV::InvalidArgNum(2, 1)))
                } else {
                    match args[1] {
                        Val::List(elems) => invoke(st, args[0], elems, env, false, (fuel - 1) as nat),
                        other => (st, Err(ErrV::InvalidArgType(Ty::List, ty_of(other)))),
                    }
                }
            },
            Builtin::Eval => if args.len() == 0 {
                (st, Err(ErrV::InvalidArgNum(1, 0)))
            } else {
                ev(st, args[0], env, (fuel - 1) as nat)
            },
            Builtin::MapFn => {
                if args.len() == 0 {
                    (st, Err(ErrV::InvalidArgNum(2, 0)))
                } else if !(args[0] is Builtin || args[0] is Lambda) {
                    (st, Err(ErrV::InvalidArgType(Ty::Function, ty_of(args[0]))))
                } else if args.len() == 1 {
                    (st, Err(ErrV::InvalidArgNum(2, 1)))
                } else {
                    match args[1] {
                        Val::List(elems) => {
                            let (st1, r) = ev_map(st, args[0], elems, env, (fuel - 1) as nat);
                            match r {
                                Err(e) => (st1, Err(e)),
                                Ok(vs) => (st1, Ok(Val::List(vs))),
                            }
                        },
                        other => (st, Err(ErrV::InvalidArgType(Ty::List, ty_of(other)))),
                    }
                }
            },
            Builtin::Fold => {
                if args.len() == 0 {
                    (st, Err(ErrV::InvalidArgNum(3, 0)))
                } else if !(args[0] is Builtin || args[0] is Lambda) {
                    (st, Err(ErrV::InvalidArgType(Ty::Function, ty_of(args[0]))))
                } else if args.len() == 1 {
                    (st, Err(ErrV::InvalidArgNum(3, 1)))
                } else if args.len() == 2 {
                    (st, Err(ErrV::InvalidArgNum(3, 2)))
                } else {
                    match args[2] {
                        Val::List(elems) => ev_fold(
                            st,
                            args[0],
                            args[1],
                            elems,
                            env,
                            (fuel - 1) as nat,
                        ),
                        other => (st, Err(ErrV::InvalidArgType(Ty::List, ty_of(other)))),
                    }
                }
            },
            Builtin::Car => {
                if args.len() == 0 {
                    (st, Err(ErrV::InvalidArgNum(1, 0)))
                } else {
                    match args[0] {
                        Val::List(elems) => if elems.len() == 0 {
                            (st, Ok(Val::Nil))
                        } else {
                            (st, Ok(elems[0]))
                        },
                        other => (st, Err(ErrV::InvalidArgType(Ty::List, ty_of(other)))),
                    }
                }
            },
            Builtin::Cdr => {
                if args.len() == 0 {
                    (st, Err(ErrV::InvalidArgNum(1, 0)))
                } else {
                    match args[0] {
                        Val::List(elems) => if elems.len() == 0 {
                            (st, Ok(Val::Nil))
                        } else {
                            (st, Ok(Val::List(elems.drop_first())))
                        },
                        other => (st, Err(ErrV::InvalidArgType(Ty::List, ty_of(other)))),
                    }
                }
            },
            Builtin::Cons => {
                if args.len() == 0 {
                    (st, Err(ErrV::InvalidArgNum(2, 0)))
                } else if args.len() == 1 {
                    (st, Err(ErrV::InvalidArgNum(2, 1)))
                } else {
                    match args[1] {
                        Val::List(elems) => (st, Ok(Val::List(seq![args[0]] + elems))),
                        other => (st, Err(ErrV::InvalidArgType(Ty::List, ty_of(other)))),
                    }
                }
            },
            Builtin::ListFn => (st, Ok(Val::List(args))),
            Builtin::Not => if args.len() == 0 {
                (st, Err(ErrV::InvalidArgNum(1, 0)))
            } else {
                (st, Ok(Val::Bool(falsish(args[0]))))
            },
            Builtin::Add => match ev_arith(args, 0, false) {
                Ok(n) => (st, Ok(Val::Num(n))),
                Err(e) => (st, Err(e)),
            },
            Builtin::Mul => match ev_arith(args, 1, true) {
                Ok(n) => (st, Ok(Val::Num(n))),
                Err(e) => (st, Err(e)),
            },
            Builtin::Sub => match ev_sub_div(args, false) {
                Ok(n) => (st, Ok(Val::Num(n))),
                Err(e) => (st, Err(e)),
            },
            Builtin::Div => match ev_sub_div(args, true) {
                Ok(n) => (st, Ok(Val::Num(n))),
                Err(e) => (st, Err(e)),
            },
            Builtin::Equal => {
                if args.len() == 0 {
                    (st, Err(ErrV::InvalidArgNum(2, 0)))
                } else if args.len() == 1 {
                    (st, Err(ErrV::InvalidArgNum(2, 1)))
                } else {
                    (st, Ok(Val::Bool(val_eq(args[0], args[1]))))
                }
            },
            Builtin::Lt | Builtin::Gt | Builtin::Le | Builtin::Ge => {
                if args.len() == 0 {
                    (st, Err(ErrV::InvalidArgNum(2, 0)))
                } else if args.len() == 1 {
                    (st, Err(ErrV::InvalidArgNum(2, 1)))
                } else {
                    match ev_compare(b, args[0], args[1]) {
                        Ok(v) => (st, Ok(v)),
                        Err(e) => (st, Err(e)),
                    }
                }
            },
            Builtin::Atom => {
                if args.len() == 0 {
                    (st, Err(ErrV::InvalidArgNum(1, 0)))
                } else {
                    match args[0] {
                        Val::List(elems) => (st, Ok(Val::Bool(elems.len() == 0))),
                        _ => (st, Ok(Val::Bool(true))),
                    }
                }
            },
            Builtin::TypeOf => if args.len() == 0 {
                (st, Err(ErrV::InvalidArgNum(1, 0)))
            } else {
                (st, Ok(Val::Str(ty_name(ty_of(args[0])))))
            },
            Builtin::Display => if args.len() == 0 {
                (st, Err(ErrV::InvalidArgNum(1, 0)))
            } else {
                (StateV { out: st.out + seq![display_of(args[0])], ..st }, Ok(args[0]))
            },
            Builtin::Debug => if args.len() == 0 {
                (st, Err(ErrV::InvalidArgNum(1, 0)))
            } else {
                (StateV { out: st.out + seq![debug_of(args[0])], ..st }, Ok(args[0]))
            },
        }
    }
}

/// The cons laws: consing a head onto a list and taking the pieces apart
/// again gives back exactly the pieces.  For every value `x` and list
/// `xs`, `(cons x xs)` succeeds, `car` of the result is `x`, and `cdr` of
/// the result is `xs`; none of the three touches the state.
pub proof fn lemma_car_cdr_cons(st: StateV, x: Val, xs: Seq<Val>, env: int, fuel: nat)
    requires
        fuel >= 1,
    ensures
        apply_builtin(st, Builtin::Cons, seq![x, Val::List(xs)], env, fuel) == (
            st,
            Ok::<Val, ErrV>(Val::List(seq![x] + xs)),
        ),
        apply_builtin(st, Builtin::Car, seq![Val::List(seq![x] + xs)], env, fuel) == (
            st,
            Ok::<Val, ErrV>(x),
        ),
        apply_builtin(st, Builtin::Cdr, seq![Val::List(seq![x] + xs)], env, fuel) == (
            st,
            Ok::<Val, ErrV>(Val::List(xs)),
        ),
{
    assert(seq![x, Val::List(xs)][0] == x);
    assert(seq![x, Val::List(xs)][1] == Val::List(xs));
    assert((seq![x] + xs)[0] == x);
    assert((seq![x] + xs).drop_first() =~= xs);
    assert(seq![Val::List(seq![x] + xs)][0] == Val::List(seq![x] + xs));
}

/// Quote is the identity after evaluation: in any state whose chain from
/// `env` binds `quote` to the quote builtin, evaluating `(quote v)` yields
/// `v` itself and leaves the state untouched, for every value `v`.
pub proof fn lemma_quote_identity(st: StateV, v: Val, env: int, fuel: nat)
    requires
        fuel >= 3,
        0 <= env < st.frames.len(),
        crate::scope::parents_ok(st.frames),
        lookup(st, env, "quote"@) == Some(Val::Builtin(Builtin::Quote)),
    ensures
        ev(st, crate::parser::quoted(v), env, fuel) == (st, Ok::<Val, ErrV>(v)),
{
    let q = crate::parser::quoted(v);
    let elems = seq![Val::Symbol("quote"@), v];
    assert(elems[0] == Val::Symbol("quote"@));
    assert(elems.drop_first() =~= seq![v]);
    assert(seq![v][0] == v);
    assert(ev(st, elems[0], env, (fuel - 1) as nat) == (
        st,
        Ok::<Val, ErrV>(Val::Builtin(Builtin::Quote)),
    ));
    assert(ev(st, q, env, fuel) == ev_call(st, elems, env, fuel));
    assert(apply_builtin(st, Builtin::Quote, seq![v], env, (fuel - 2) as nat) == (
        st,
        Ok::<Val, ErrV>(v),
    ));
    assert(invoke(st, Val::Builtin(Builtin::Quote), seq![v], env, true, (fuel - 1) as nat) == (
        st,
        Ok::<Val, ErrV>(v),
    ));
}

/// `and` evaluates only up to the first decisive value: when the first
/// element evaluates to a false-ish value, that value is the whole result,
/// and the state is exactly the state after evaluating that element —
/// nothing after it runs.
pub proof fn lemma_and_short_circuit(st: StateV, elems: Seq<Val>, last: Val, env: int, fuel: nat)
    requires
        fuel >= 1,
        elems.len() > 0,
        ev(st, elems[0], env, (fuel - 1) as nat).1 is Ok,
        falsish(ev(st, elems[0], env, (fuel - 1) as nat).1->Ok_0),
    ensures
        ev_and(st, elems, last, env, fuel) == (
            ev(st, elems[0], env, (fuel - 1) as nat).0,
            ev(st, elems[0], env, (fuel - 1) as nat).1,
        ),
{
}

/// `or` evaluates only up to the first decisive value: when the first
/// element evaluates to a truthy value, that value is the whole result,
/// and the state is exactly the state after evaluating that element —
/// nothing after it runs.
pub proof fn lemma_or_short_circuit(st: StateV, elems: Seq<Val>, last: Val, env: int, fuel: nat)
    requires
        fuel >= 1,
        elems.len() > 0,
        ev(st, elems[0], env, (fuel - 1) as nat).1 is Ok,
        !falsish(ev(st, elems[0], env, (fuel - 1) as nat).1->Ok_0),
    ensures
        ev_or(st, elems, last, env, fuel) == (
            ev(st, elems[0], env, (fuel - 1) as nat).0,
            ev(st, elems[0], env, (fuel - 1) as nat).1,
        ),
{
}

/// The display–parse–evaluate round trip: for every self-representing
/// value — a number, a boolean, `nil`, or a string whose text holds
/// neither a quote nor a backslash — parsing the display form of the
/// value yields exactly one expression, and evaluating that expression in
/// any environment whose chain binds the standard constants gives back
/// exactly the value, leaving the state untouched.
///
/// Other values do not represent themselves: the display form of a list
/// re-parses as a call, a symbol as a variable reference, and a function
/// as unreadable text, so they stay outside this law.
pub proof fn lemma_display_parse_eval_round_trip(st: StateV, v: Val, env: int, fuel: nat)
    requires
        fuel >= 1,
        0 <= env < st.frames.len(),
        crate::scope::parents_ok(st.frames),
        lookup(st, env, "nil"@) == Some(Val::Nil),
        lookup(st, env, "#t"@) == Some(Val::Bool(true)),
        lookup(st, env, "#f"@) == Some(Val::Bool(false)),
        match v {
            Val::Nil => true,
            Val::Bool(_) => true,
            Val::Num(_) => true,
            Val::Str(w) => forall|k: int|
                0 <= k < w.len() ==> (#[trigger] w[k]) != '"' && w[k] != '\\',
            _ => false,
        },
    ensures
        ({
            let r = crate::parser::parse_all_spec(display_of(v), 0).0;
            &&& r is Ok
            &&& r->Ok_0.len() == 1
            &&& ev(st, r->Ok_0[0], env, fuel) == (st, Ok::<Val, ErrV>(v))
        }),
{
    let s = display_of(v);
    match v {
        Val::Nil => {
            reveal_strlit("nil");
            assert(s.len() == 3);
            assert('n' as u32 == 110);
            assert('i' as u32 == 105);
            assert('l' as u32 == 108);
            assert forall|k: int| 0 <= k < s.len() implies !crate::lexer::is_sep(
                #[trigger] s[k],
            ) by {
                assert(' ' as u32 == 32);
                assert('\n' as u32 == 10);
                assert('\t' as u32 == 9);
                assert('(' as u32 == 40);
                assert(')' as u32 == 41);
            }
            crate::lexer::lemma_next_token_ident(s);
            crate::parser::lemma_parse_single(s, Val::Symbol(s));
        },
        Val::Bool(b) => {
            reveal_strlit("#t");
            reveal_strlit("#f");
            assert('#' as u32 == 35);
            assert('t' as u32 == 116);
            assert('f' as u32 == 102);
            assert(s.len() == 2);
            assert forall|k: int| 0 <= k < s.len() implies !crate::lexer::is_sep(
                #[trigger] s[k],
            ) by {
                assert(' ' as u32 == 32);
                assert('\n' as u32 == 10);
                assert('\t' as u32 == 9);
                assert('(' as u32 == 40);
                assert(')' as u32 == 41);
            }
            crate::lexer::lemma_next_token_ident(s);
            crate::parser::lemma_parse_single(s, Val::Symbol(s));
        },
        Val::Num(n) => {
            crate::lexer::lemma_dec_digits(if n >= 0 {
                n as nat
            } else {
                (-(n as int)) as nat
            });
            crate::lexer::lemma_next_token_number(n);
            assert(s.len() >= 1);
            crate::parser::lemma_parse_single(s, Val::Num(((n as int)) as i64));
            assert(((n as int)) as i64 == n);
        },
        Val::Str(w) => {
            assert(s == seq!['"'] + w + seq!['"']);
            crate::lexer::lemma_next_token_string(w);
            assert(s.len() == w.len() + 2);
            crate::parser::lemma_parse_single(s, Val::Str(w));
        },
        _ => {},
    }
}

/// `map` passes the list elements to its callable verbatim, without
/// evaluating them: mapping the identity lambda over any list of values —
/// unbound symbols and unevaluated forms included — returns exactly those
/// values, errs on none of them, and prints nothing.
pub proof fn lemma_map_passes_verbatim(st: StateV, l: LambdaV, elems: Seq<Val>, env: int, fuel: nat)
    requires
        crate::scope::parents_ok(st.frames),
        l.params.len() == 1,
        l.body == seq![Val::Symbol(l.params[0])],
        l.env < st.frames.len(),
        fuel >= elems.len() + 5,
    ensures
        ev_map(st, Val::Lambda(l), elems, env, fuel).1 == Ok::<Seq<Val>, ErrV>(elems),
        ev_map(st, Val::Lambda(l), elems, env, fuel).0.out == st.out,
        crate::scope::parents_ok(ev_map(st, Val::Lambda(l), elems, env, fuel).0.frames),
        ev_map(st, Val::Lambda(l), elems, env, fuel).0.frames.len() >= st.frames.len(),
    decreases elems.len(),
{
    if elems.len() == 0 {
        assert(ev_map(st, Val::Lambda(l), elems, env, fuel).1 == Ok::<Seq<Val>, ErrV>(
            Seq::empty(),
        ));
        assert(elems =~= Seq::<Val>::empty());
    } else {
        let x = elems[0];
        let args = seq![x];
        let f1 = (fuel - 1) as nat;
        let f2 = (fuel - 2) as nat;
        let f3 = (fuel - 3) as nat;
        let frame = FrameV { map: bind_params(l.params, args), parent: Some(l.env as int) };
        let st1 = StateV { frames: st.frames + seq![frame], ..st };
        let h = st.frames.len() as int;
        assert(args[0] == x);
        assert(l.params.drop_last() =~= Seq::<Seq<char>>::empty());
        assert(bind_params(l.params.drop_last(), args) =~= Map::<Seq<char>, Val>::empty());
        assert(l.params.last() == l.params[0]);
        assert(bind_params(l.params, args) == Map::<Seq<char>, Val>::empty().insert(
            l.params[0],
            x,
        ));
        assert(invoke(st, Val::Lambda(l), args, env, false, f1) == lambda_call(st, l, args, f2));
        assert(lambda_call(st, l, args, f2) == ev_seq(st1, l.body, h, f3));
        assert(crate::scope::parents_ok(st1.frames)) by {
            assert(forall|i: int|
                0 <= i < st.frames.len() ==> st1.frames[i].parent == #[trigger] st.frames[i].parent);
        }
        assert(st1.frames[h].map.dom().contains(l.params[0]));
        assert(lookup(st1, h, l.params[0]) == Some(x));
        assert(l.body[0] == Val::Symbol(l.params[0]));
        assert(ev(st1, l.body[0], h, (f3 - 1) as nat) == (st1, Ok::<Val, ErrV>(x)));
        assert(ev_seq(st1, l.body, h, f3) == (st1, Ok::<Val, ErrV>(x)));
        assert(l.env < st1.frames.len());
        lemma_map_passes_verbatim(st1, l, elems.drop_first(), env, f1);
        assert(seq![x] + elems.drop_first() =~= elems);
    }
}

/// `fold` passes the accumulator and the list elements to its callable
/// verbatim, without evaluating them: folding the
/// second-argument-returning lambda over any list of values returns the
/// last element (or the start value for the empty list), errs on none of
/// them, and prints nothing.
pub proof fn lemma_fold_passes_verbatim(
    st: StateV,
    l: LambdaV,
    acc: Val,
    elems: Seq<Val>,
    env: int,
    fuel: nat,
)
    requires
        crate::scope::parents_ok(st.frames),
        l.params.len() == 2,
        l.body == seq![Val::Symbol(l.params[1])],
        l.env < st.frames.len(),
        fuel >= elems.len() + 5,
    ensures
        ev_fold(st, Val::Lambda(l), acc, elems, env, fuel).1 == Ok::<Val, ErrV>(
            if elems.len() == 0 {
                acc
            } else {
                elems.last()
            },
        ),
        ev_fold(st, Val::Lambda(l), acc, elems, env, fuel).0.out == st.out,
        crate::scope::parents_ok(ev_fold(st, Val::Lambda(l), acc, elems, env, fuel).0.frames),
        ev_fold(st, Val::Lambda(l), acc, elems, env, fuel).0.frames.len() >= st.frames.len(),
    decreases elems.len(),
{
    if elems.len() == 0 {
    } else {
        let x = elems[0];
        let args = seq![acc, x];
        let f1 = (fuel - 1) as nat;
        let f2 = (fuel - 2) as nat;
        let f3 = (fuel - 3) as nat;
        let frame = FrameV { map: bind_params(l.params, args), parent: Some(l.env as int) };
        let st1 = StateV { frames: st.frames + seq![frame], ..st };
        let h = st.frames.len() as int;
        assert(args[0] == acc);
        assert(args[1] == x);
        assert(l.params.drop_last() =~= seq![l.params[0]]);
        assert(l.params.drop_last().drop_last() =~= Seq::<Seq<char>>::empty());
        assert(bind_params(l.params.drop_last().drop_last(), args) =~= Map::<
            Seq<char>,
            Val,
        >::empty());
        assert(l.params.drop_last().last() == l.params[0]);
        assert(l.params.drop_last().len() == 1);
        assert(bind_params(l.params.drop_last(), args) =~= Map::<Seq<char>, Val>::empty().insert(
            l.params[0],
            acc,
        ));
        assert(l.params.last() == l.params[1]);
        assert(bind_params(l.params, args) == Map::<Seq<char>, Val>::empty().insert(
            l.params[0],
            acc,
        ).insert(l.params[1], x));
        assert(invoke(st, Val::Lambda(l), args, env, false, f1) == lambda_call(st, l, args, f2));
        assert(lambda_call(st, l, args, f2) == ev_seq(st1, l.body, h, f3));
        assert(crate::scope::parents_ok(st1.frames)) by {
            assert(forall|i: int|
                0 <= i < st.frames.len() ==> st1.frames[i].parent == #[trigger] st.frames[i].parent);
        }
        assert(st1.frames[h].map.dom().contains(l.params[1]));
        assert(st1.frames[h].map[l.params[1]] == x);
        assert(lookup(st1, h, l.params[1]) == Some(x));
        assert(l.body[0] == Val::Symbol(l.params[1]));
        assert(ev(st1, l.body[0], h, (f3 - 1) as nat) == (st1, Ok::<Val, ErrV>(x)));
        assert(ev_seq(st1, l.body, h, f3) == (st1, Ok::<Val, ErrV>(x)));
        assert(l.env < st1.frames.len());
        lemma_fold_passes_verbatim(st1, l, x, elems.drop_first(), env, f1);
        if elems.len() > 1 {
            assert(elems.drop_first().last() == elems.last());
        }
    }
}

} // verus!
