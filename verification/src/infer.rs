//! The inference algorithm: one recursive walk over the expression tree.
//!
//! The walk takes and mutates a context, producing either a single resolved
//! type or the first error met. Its contract pins the result and the final
//! counter to the recursive model `spec_infer`; the scope stack is returned
//! exactly as it was, on the success and on every failure path alike.

use vstd::prelude::*;

use crate::ast::Expr;
use crate::context::Context;
use crate::context::SpecBinding;
use crate::context::scopes_lookup;
use crate::context::spec_instantiate;
use crate::types::Error;
use crate::types::Scheme;
use crate::types::SpecScheme;
use crate::types::Type;
use crate::types::Unifier;
use crate::types::spec_subst;
use crate::types::spec_unify;

verus! {

/// The engine's configuration. With `polymorphic_let` set, each use of a
/// let-bound name is instantiated with independent fresh variables; without
/// it every let-binding is monomorphic.
#[derive(Debug, PartialEq, Eq)]
pub struct Flags {
    pub polymorphic_let: bool,
}

impl Flags {
    /// Every option switched on.
    pub fn all() -> (r: Self)
        ensures
            r.polymorphic_let,
    {
        Flags { polymorphic_let: true }
    }

    /// Every option switched off.
    pub fn none() -> (r: Self)
        ensures
            !r.polymorphic_let,
    {
        Flags { polymorphic_let: false }
    }
}

/// The variable indices minted for a parameter list of length `n` when the
/// counter stands at `vars`.
pub open spec fn param_vars(n: nat, vars: nat) -> Seq<usize> {
    Seq::new(n, |i: int| (vars + i) as usize)
}

/// The scope a let-binding's parameter list opens: each parameter bound to a
/// monomorphic scheme wrapping its freshly minted variable.
pub open spec fn param_bindings(params: Seq<Seq<char>>, vars: nat) -> Seq<SpecBinding> {
    Seq::new(
        params.len(),
        |i: int| SpecBinding {
            name: params[i],
            scheme: SpecScheme { bounds: Seq::empty(), ty: Type::Var((vars + i) as usize) },
        },
    )
}

/// The model of one inference pass: from an expression, the counter, the
/// scope stack (innermost scope last) and the generalization switch to the
/// result and the counter after the walk.
///
/// A variable occurrence instantiates the innermost scheme bound to its name,
/// or fails with `Undefined`. A function literal binds its parameter to a
/// fresh monomorphic variable in a new scope, never generalized. A
/// let-binding infers its value with the bound name invisible and its
/// parameters bound to fresh variables, generalizes exactly those parameter
/// variables (none when generalization is off), and infers its body with the
/// scheme in scope; the scopes it opens are closed on the failure paths too.
/// An application requires the callee to resolve to a function type before
/// its argument is even considered, then unifies parameter against argument
/// in a fresh, call-local substitution and applies it to the result type.
pub open spec fn spec_infer(e: Expr, vars: nat, scopes: Seq<Seq<SpecBinding>>, poly: bool) -> (
    Result<Type, Error>,
    nat,
)
    decreases e,
{
    match e {
        Expr::Id(name) => match scopes_lookup(scopes, name@) {
            Some(s) => (Ok(spec_instantiate(s, vars).0), spec_instantiate(s, vars).1),
            None => (Err(Error::Undefined), vars),
        },
        Expr::Fn(x, body) => {
            let inner = scopes.push(
                seq![
                    SpecBinding {
                        name: x@,
                        scheme: SpecScheme {
                            bounds: Seq::empty(),
                            ty: Type::Var(vars as usize),
                        },
                    }
                ],
            );
            let (r, v2) = spec_infer(*body, vars + 1, inner, poly);
            match r {
                Ok(t) => (
                    Ok(Type::Fn(Box::new(Type::Var(vars as usize)), Box::new(t))),
                    v2,
                ),
                Err(err) => (Err(err), v2),
            }
        },
        Expr::Let(key, params, value, body) => {
            let pv = params.deep_view();
            let inner = scopes.push(Seq::empty()).push(param_bindings(pv, vars));
            let (rv, v2) = spec_infer(*value, vars + pv.len(), inner, poly);
            match rv {
                Err(err) => (Err(err), v2),
                Ok(t) => {
                    let bounds = if poly {
                        param_vars(pv.len(), vars)
                    } else {
                        Seq::<usize>::empty()
                    };
                    let outer = scopes.push(
                        seq![SpecBinding { name: key@, scheme: SpecScheme { bounds, ty: t } }],
                    );
                    spec_infer(*body, v2, outer, poly)
                },
            }
        },
        Expr::Call(f, x) => {
            let (rf, v2) = spec_infer(*f, vars, scopes, poly);
            match rf {
                Err(err) => (Err(err), v2),
                Ok(ft) => match ft {
                    Type::Fn(pt, rt) => {
                        let (rx, v3) = spec_infer(*x, v2, scopes, poly);
                        match rx {
                            Err(err) => (Err(err), v3),
                            Ok(xt) => {
                                let (ok, m) = spec_unify(*pt, xt, Map::empty());
                                if ok {
                                    (Ok(spec_subst(*rt, m)), v3)
                                } else {
                                    (Err(Error::Unification), v3)
                                }
                            },
                        }
                    },
                    _ => (Err(Error::ExpectedFn), v2),
                },
            }
        },
    }
}

/// The fresh-variable counter only ever advances: whatever a walk returns,
/// its final counter is at least the one it started from, so no variable
/// index is ever reused within one pass.
pub proof fn lemma_infer_counter_monotonic(
    e: Expr,
    vars: nat,
    scopes: Seq<Seq<SpecBinding>>,
    poly: bool,
)
    ensures
        spec_infer(e, vars, scopes, poly).1 >= vars,
    decreases e,
{
    match e {
        Expr::Id(name) => {},
        Expr::Fn(x, body) => {
            let inner = scopes.push(
                seq![
                    SpecBinding {
                        name: x@,
                        scheme: SpecScheme {
                            bounds: Seq::empty(),
                            ty: Type::Var(vars as usize),
                        },
                    }
                ],
            );
            lemma_infer_counter_monotonic(*body, vars + 1, inner, poly);
        },
        Expr::Let(key, params, value, body) => {
            let pv = params.deep_view();
            let inner = scopes.push(Seq::empty()).push(param_bindings(pv, vars));
            lemma_infer_counter_monotonic(*value, vars + pv.len(), inner, poly);
            let (rv, v2) = spec_infer(*value, vars + pv.len(), inner, poly);
            match rv {
                Err(err) => {},
                Ok(t) => {
                    let bounds = if poly {
                        param_vars(pv.len(), vars)
                    } else {
                        Seq::<usize>::empty()
                    };
                    let outer = scopes.push(
                        seq![SpecBinding { name: key@, scheme: SpecScheme { bounds, ty: t } }],
                    );
                    lemma_infer_counter_monotonic(*body, v2, outer, poly);
                },
            }
        },
        Expr::Call(f, x) => {
            lemma_infer_counter_monotonic(*f, vars, scopes, poly);
            let (rf, v2) = spec_infer(*f, vars, scopes, poly);
            match rf {
                Err(err) => {},
                Ok(ft) => match ft {
                    Type::Fn(pt, rt) => {
                        lemma_infer_counter_monotonic(*x, v2, scopes, poly);
                    },
                    _ => {},
                },
            }
        },
    }
}

impl Expr {
    /// Infer this expression's type in the given context. The result and the
    /// final counter are exactly the model's; the scope stack is handed back
    /// unchanged on every path, success and failure alike. The precondition
    /// only asks that the pass not exhaust the machine's variable indices.
    pub fn infer(&self, context: &mut Context, flags: &Flags) -> (res: Result<Type, Error>)
        requires
            spec_infer(
                *self,
                old(context)@.vars,
                old(context)@.scopes,
                flags.polymorphic_let,
            ).1 <= usize::MAX,
        ensures
            ({
                let (r, v) = spec_infer(
                    *self,
                    old(context)@.vars,
                    old(context)@.scopes,
                    flags.polymorphic_let,
                );
                &&& res == r
                &&& final(context)@.vars == v
                &&& final(context)@.scopes == old(context)@.scopes
            }),
        decreases *self,
    {
        let ghost v0 = context@.vars;
        let ghost ss = context@.scopes;
        let ghost poly = flags.polymorphic_let;
        match self {
            Expr::Id(id) => context.get(id),
            Expr::Fn(x, body) => {
                let ghost inner = ss.push(
                    seq![
                        SpecBinding {
                            name: x@,
                            scheme: SpecScheme {
                                bounds: Seq::empty(),
                                ty: Type::Var(v0 as usize),
                            },
                        }
                    ],
                );
                proof {
                    lemma_infer_counter_monotonic(**body, v0 + 1, inner, poly);
                }
                context.enter();
                let k = context.fresh();
                context.insert(x, Scheme::from(Type::Var(k)));
                proof {
                    assert(context@.scopes =~~= inner);
                }
                let ty = body.infer(context, flags);
                context.exit();
                proof {
                    assert(context@.scopes =~~= ss);
                }
                match ty {
                    Ok(t) => Ok(Type::Fn(Box::new(Type::Var(k)), Box::new(t))),
                    Err(e) => Err(e),
                }
            },
            Expr::Let(key, params, value, body) => {
                let ghost pv = params.deep_view();
                let ghost inner = ss.push(Seq::empty()).push(param_bindings(pv, v0));
                proof {
                    lemma_infer_counter_monotonic(**value, v0 + pv.len(), inner, poly);
                    let (rv, v2) = spec_infer(**value, v0 + pv.len(), inner, poly);
                    if rv is Ok {
                        let bounds = if poly {
                            param_vars(pv.len(), v0)
                        } else {
                            Seq::<usize>::empty()
                        };
                        let outer = ss.push(
                            seq![
                                SpecBinding {
                                    name: key@,
                                    scheme: SpecScheme { bounds, ty: rv->Ok_0 },
                                }
                            ],
                        );
                        lemma_infer_counter_monotonic(**body, v2, outer, poly);
                    }
                }
                context.enter();
                context.enter();
                proof {
                    assert(param_bindings(pv.take(0), v0) =~= Seq::<SpecBinding>::empty());
                    assert(param_vars(0, v0) =~= Seq::<usize>::empty());
                }
                let mut bounds: Vec<usize> = Vec::new();
                let mut i: usize = 0;
                while i < params.len()
                    invariant
                        i <= params.len(),
                        pv == params.deep_view(),
                        pv.len() == params@.len(),
                        v0 + pv.len() <= usize::MAX,
                        context@.vars == v0 + i,
                        context@.scopes == ss.push(Seq::empty()).push(
                            param_bindings(pv.take(i as int), v0),
                        ),
                        bounds@ == param_vars(i as nat, v0),
                    decreases params.len() - i,
                {
                    let var = context.fresh();
                    bounds.push(var);
                    context.insert(&params[i], Scheme::from(Type::Var(var)));
                    proof {
                        assert(params@[i as int]@ == pv[i as int]);
                        assert(context@.scopes =~~= ss.push(Seq::empty()).push(
                            param_bindings(pv.take(i + 1), v0),
                        ));
                        assert(bounds@ =~= param_vars((i + 1) as nat, v0));
                    }
                    i = i + 1;
                }
                proof {
                    assert(pv.take(params@.len() as int) =~= pv);
                }
                let vty = value.infer(context, flags);
                context.exit();
                match vty {
                    Err(e) => {
                        context.exit();
                        proof {
                            assert(context@.scopes =~~= ss);
                        }
                        Err(e)
                    },
                    Ok(t) => {
                        let ghost tt = t;
                        let scheme = if flags.polymorphic_let {
                            Scheme { bounds, ty: t }
                        } else {
                            Scheme { bounds: Vec::new(), ty: t }
                        };
                        let ghost sbounds = if poly {
                            param_vars(pv.len(), v0)
                        } else {
                            Seq::<usize>::empty()
                        };
                        context.insert(key, scheme);
                        proof {
                            assert(context@.scopes =~~= ss.push(
                                seq![
                                    SpecBinding {
                                        name: key@,
                                        scheme: SpecScheme { bounds: sbounds, ty: tt },
                                    }
                                ],
                            ));
                        }
                        let r = body.infer(context, flags);
                        context.exit();
                        proof {
                            assert(context@.scopes =~~= ss);
                        }
                        r
                    },
                }
            },
            Expr::Call(f, x) => {
                proof {
                    let (rf, v2) = spec_infer(**f, v0, ss, poly);
                    if rf matches Ok(ft) && ft is Fn {
                        lemma_infer_counter_monotonic(**x, v2, ss, poly);
                    }
                }
                let f_ty = match f.infer(context, flags) {
                    Ok(t) => t,
                    Err(e) => {
                        return Err(e);
                    },
                };
                match f_ty {
                    Type::Fn(param_ty, body_ty) => {
                        let x_ty = match x.infer(context, flags) {
                            Ok(t) => t,
                            Err(e) => {
                                return Err(e);
                            },
                        };
                        let mut unifier = Unifier::new();
                        match param_ty.unify(&x_ty, &mut unifier) {
                            Ok(()) => {
                                let mut out = *body_ty;
                                out.subst(&unifier);
                                Ok(out)
                            },
                            Err(e) => Err(e),
                        }
                    },
                    _ => Err(Error::ExpectedFn),
                }
            },
        }
    }
}

} // verus!
