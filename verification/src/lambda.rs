//! User-defined closures.
//!
//! A lambda carries its formal parameter names, its body, and the handle of
//! the environment frame captured where `lambda` was evaluated.  The `id`
//! field is a creation stamp used for the by-identity equality of function
//! values: every evaluation of a `lambda` form yields a fresh stamp, and
//! copies of the value keep it.

use vstd::prelude::*;

use crate::builtins::eval_seq;
use crate::data::{
    clone_value, lemma_vals_valid_index, lemma_vals_view_elts, names_view, res_view, val_valid,
    vals_valid, vals_view, RuntimeError, Val, Value,
};
use crate::scope::{FrameV, Scope, StateV};
use crate::semantics::{bind_params, lambda_call};

verus! {

/// A user-defined callable closing over its definition-time environment.
#[derive(Debug)]
pub struct Lambda {
    pub id: u64,
    pub params: Vec<Vec<char>>,
    pub body: Vec<Value>,
    pub env: usize,
}

/// The ghost model of a lambda.
pub struct LambdaV {
    pub id: u64,
    pub params: Seq<Seq<char>>,
    pub body: Seq<Val>,
    pub env: nat,
}

impl Lambda {
    /// Builds a lambda from its parts.
    pub fn new(id: u64, params: Vec<Vec<char>>, body: Vec<Value>, env: usize) -> (r: Lambda)
        ensures
            r.id == id,
            r.params == params,
            r.body == body,
            r.env == env,
    {
        Lambda { id, params, body, env }
    }

    /// Calls the lambda on already-produced argument values, per
    /// [`lambda_call`]: too few values is an arity error; otherwise a
    /// fresh frame over the captured environment binds the parameters in
    /// order and the body runs in it.
    #[verifier::loop_isolation(false)]
    pub fn call(&self, sc: &mut Scope, vals: Vec<Value>, fuel: u64) -> (r: Result<
        Value,
        RuntimeError,
    >)
        requires
            old(sc).wf(),
            val_valid(Val::Lambda(self@), old(sc)@.frames.len() as nat),
            vals_valid(vals_view(vals@), old(sc)@.frames.len() as nat),
        ensures
            final(sc).wf(),
            old(sc)@.frames.len() <= final(sc)@.frames.len(),
            ({
                let (st2, r2) = lambda_call(old(sc)@, self@, vals_view(vals@), fuel as nat);
                final(sc)@ == st2 && res_view(r) == r2
            }),
            r is Ok ==> val_valid(r->Ok_0@, final(sc)@.frames.len() as nat),
        decreases fuel, 1int,
    {
        if fuel == 0 {
            return Err(RuntimeError::StackOverflow);
        }
        proof {
            lemma_vals_view_elts(vals@);
        }
        if vals.len() < self.params.len() {
            return Err(RuntimeError::InvalidArgNum(self.params.len(), vals.len()));
        }
        let ghost st0 = sc@;
        let ghost vm = vals_view(vals@);
        let ghost n0 = sc@.frames.len() as nat;
        let h = sc.local(self.env);
        proof {
            lemma_vals_valid_index(vm, n0);
        }
        let mut i: usize = 0;
        while i < self.params.len()
            invariant
                i <= self.params@.len(),
                sc@ == (StateV {
                    frames: st0.frames + seq![
                        FrameV {
                            map: bind_params(self@.params.take(i as int), vm),
                            parent: Some(self.env as int),
                        },
                    ],
                    ..st0
                }),
                sc.wf(),
            decreases self.params@.len() - i,
        {
            let ghost stp = sc@;
            let v = clone_value(&vals[i]);
            proof {
                assert(vm[i as int] == vals@[i as int]@);
                crate::data::lemma_val_valid_grow(v@, n0, sc@.frames.len() as nat);
                assert(h as int == st0.frames.len());
            }
            sc.decl(h, &self.params[i], v);
            proof {
                let p1 = self@.params.take(i as int + 1);
                assert(p1.drop_last() =~= self@.params.take(i as int));
                assert(p1.last() == self@.params[i as int]);
                assert(self@.params[i as int] == self.params@[i as int]@);
                assert(bind_params(p1, vm) == bind_params(
                    self@.params.take(i as int),
                    vm,
                ).insert(self@.params[i as int], vm[i as int]));
                assert(sc@ =~~= StateV {
                    frames: st0.frames + seq![
                        FrameV {
                            map: bind_params(p1, vm),
                            parent: Some(self.env as int),
                        },
                    ],
                    ..st0
                });
            }
            i = i + 1;
        }
        proof {
            assert(self@.params.take(self.params@.len() as int) =~= self@.params);
            assert(sc@ =~~= StateV {
                frames: st0.frames + seq![
                    FrameV { map: bind_params(self@.params, vm), parent: Some(self.env as int) },
                ],
                ..st0
            });
            crate::data::lemma_vals_valid_grow(self@.body, n0, sc@.frames.len() as nat);
        }
        let r = eval_seq(sc, &self.body, 0, h, fuel - 1);
        proof {
            assert(vals_view(self.body@).skip(0) =~= vals_view(self.body@));
        }
        r
    }
}

impl View for Lambda {
    type V = LambdaV;

    open spec fn view(&self) -> LambdaV {
        LambdaV {
            id: self.id,
            params: names_view(self.params@),
            body: vals_view(self.body@),
            env: self.env as nat,
        }
    }
}

} // verus!
