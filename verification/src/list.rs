//! Operations on the shared cons-list structure.
//!
//! The model of a list is the sequence of the models of its elements, so
//! every operation here is specified by a plain sequence equation.

use vstd::prelude::*;

use crate::builtins::invoke;
use crate::data::{
    clone_value, lemma_val_valid_grow, lemma_vals_valid_grow, lemma_vals_view_push, list_view,
    res_view, val_valid, vals_valid, vals_view, Cons, List, RuntimeError, Val, Value,
};
use crate::scope::Scope;
use crate::semantics::{ev_args, ev_call};

verus! {

impl List {
    /// Prepends a value: the model of the result is the element followed by
    /// the model of the tail.
    pub fn cons(car: Value, cdr: List) -> (r: List)
        ensures
            r@ == seq![car@] + cdr@,
    {
        List::Node(Box::new(Cons { car, cdr }))
    }

    /// Builds a list whose elements are those of the vector, in order.
    pub fn from_de_iter(items: Vec<Value>) -> (r: List)
        ensures
            r@ == vals_view(items@),
    {
        let ghost orig = items@;
        let mut items = items;
        let mut l = List::End;
        while items.len() > 0
            invariant
                items@.len() <= orig.len(),
                items@ == orig.take(items@.len() as int),
                l@ == vals_view(orig.skip(items@.len() as int)),
            decreases items@.len(),
        {
            let ghost k = items@.len() as int;
            let v = match items.pop() {
                Some(v) => v,
                None => {
                    proof {
                        assert(false);
                    }
                    Value::Nil
                },
            };
            proof {
                assert(v == orig[k - 1]);
                assert(items@ =~= orig.take(k - 1));
            }
            l = List::cons(v, l);
            proof {
                let rest = orig.skip(k - 1);
                assert(rest[0] == orig[k - 1]);
                assert(rest.drop_first() =~= orig.skip(k));
                assert(l@ =~= seq![v@] + vals_view(orig.skip(k)));
                assert(vals_view(rest) == seq![rest[0]@] + vals_view(rest.drop_first()));
            }
        }
        proof {
            assert(orig.skip(0) =~= orig);
        }
        l
    }

    /// Returns the elements of the list as a vector, cloned in order.
    pub fn iter(&self) -> (r: Vec<Value>)
        ensures
            vals_view(r@) == self@,
    {
        let mut out: Vec<Value> = Vec::new();
        let mut cur: &List = self;
        loop
            invariant
                vals_view(out@) + list_view(*cur) == self@,
            ensures
                vals_view(out@) == self@,
            decreases list_view(*cur).len(),
        {
            match cur {
                List::Node(c) => {
                    let x = clone_value(&c.car);
                    let ghost pre = out@;
                    out.push(x);
                    proof {
                        assert(out@ =~= pre + seq![x]);
                        lemma_vals_view_push(pre, x);
                        assert(vals_view(out@) + list_view(c.cdr) =~= vals_view(pre) + list_view(
                            *cur,
                        ));
                    }
                    cur = &c.cdr;
                },
                List::End => {
                    proof {
                        assert(vals_view(out@) + list_view(*cur) =~= vals_view(out@));
                    }
                    break ;
                },
            }
        }
        out
    }
}

impl List {
    /// Evaluates the list as a call form, per [`ev_call`]: the empty list
    /// yields `nil`; otherwise the head is evaluated to a callable, which
    /// is invoked on the tail.
    pub fn call(&self, sc: &mut Scope, env: usize, fuel: u64) -> (r: Result<Value, RuntimeError>)
        requires
            old(sc).wf(),
            env < old(sc)@.frames.len(),
            vals_valid(self@, old(sc)@.frames.len() as nat),
        ensures
            final(sc).wf(),
            old(sc)@.frames.len() <= final(sc)@.frames.len(),
            ({
                let (st2, r2) = ev_call(old(sc)@, self@, env as int, fuel as nat);
                final(sc)@ == st2 && res_view(r) == r2
            }),
            r is Ok ==> val_valid(r->Ok_0@, final(sc)@.frames.len() as nat),
        decreases fuel, 0int,
    {
        if fuel == 0 {
            return Err(RuntimeError::StackOverflow);
        }
        match self {
            List::End => Ok(Value::Nil),
            List::Node(c) => {
                proof {
                    assert(self@[0] == c.car@);
                    assert(self@.drop_first() =~= c.cdr@);
                }
                let f = match c.car.eval(sc, env, fuel - 1) {
                    Ok(f) => f,
                    Err(e) => {
                        return Err(e);
                    },
                };
                proof {
                    lemma_vals_valid_grow(
                        c.cdr@,
                        old(sc)@.frames.len() as nat,
                        sc@.frames.len() as nat,
                    );
                }
                invoke(sc, &f, &c.cdr, env, true, fuel - 1)
            },
        }
    }

    /// Evaluates each element left to right, per [`ev_args`], collecting
    /// the values; the first error aborts.
    pub fn eval(&self, sc: &mut Scope, env: usize, fuel: u64) -> (r: Result<
        Vec<Value>,
        RuntimeError,
    >)
        requires
            old(sc).wf(),
            env < old(sc)@.frames.len(),
            vals_valid(self@, old(sc)@.frames.len() as nat),
        ensures
            final(sc).wf(),
            old(sc)@.frames.len() <= final(sc)@.frames.len(),
            ({
                let (st2, r2) = ev_args(old(sc)@, self@, env as int, fuel as nat);
                final(sc)@ == st2 && match (r, r2) {
                    (Ok(vs), Ok(m)) => vals_view(vs@) == m,
                    (Err(e), Err(e2)) => e@ == e2,
                    _ => false,
                }
            }),
            r is Ok ==> vals_valid(vals_view(r->Ok_0@), final(sc)@.frames.len() as nat),
        decreases fuel, 1int,
    {
        if fuel == 0 {
            return Err(RuntimeError::StackOverflow);
        }
        match self {
            List::End => Ok(Vec::new()),
            List::Node(c) => {
                proof {
                    assert(self@[0] == c.car@);
                    assert(self@.drop_first() =~= c.cdr@);
                }
                let v = match c.car.eval(sc, env, fuel - 1) {
                    Ok(v) => v,
                    Err(e) => {
                        return Err(e);
                    },
                };
                let ghost n1 = sc@.frames.len() as nat;
                proof {
                    lemma_vals_valid_grow(c.cdr@, old(sc)@.frames.len() as nat, n1);
                }
                let mut rest = match c.cdr.eval(sc, env, fuel - 1) {
                    Ok(vs) => vs,
                    Err(e) => {
                        return Err(e);
                    },
                };
                let ghost pre = rest@;
                let ghost restm = vals_view(rest@);
                let ghost vm = v@;
                let ghost nf = sc@.frames.len() as nat;
                proof {
                    lemma_val_valid_grow(vm, n1, nf);
                }
                rest.insert(0, v);
                proof {
                    assert(rest@ =~= seq![rest@[0]] + pre);
                    assert((seq![rest@[0]] + pre)[0] == rest@[0]);
                    assert((seq![rest@[0]] + pre).drop_first() =~= pre);
                    assert(rest@[0]@ == vm);
                    assert(vals_view(rest@) == seq![vm] + restm);
                    let s2 = seq![vm] + restm;
                    crate::data::lemma_vals_valid_index(restm, nf);
                    assert forall|i: int| 0 <= i < s2.len() implies val_valid(
                        #[trigger] s2[i],
                        nf,
                    ) by {
                        if i > 0 {
                            assert(s2[i] == restm[i - 1]);
                        }
                    }
                    crate::data::lemma_vals_valid_index(s2, nf);
                }
                Ok(rest)
            },
        }
    }
}

/// Reading a list out element by element and rebuilding a list from that
/// sequence yields a structurally identical list: whenever `items` holds the
/// elements of `xs` (as `iter` ensures) and `r` is built from `items` (as
/// `from_de_iter` ensures), `r` models the same list as `xs`.
pub proof fn lemma_from_sequence_of_iter(xs: List, items: Seq<Value>, r: List)
    requires
        vals_view(items) == xs@,
        r@ == vals_view(items),
    ensures
        r@ == xs@,
{
}

} // verus!
