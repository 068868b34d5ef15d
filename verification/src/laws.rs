//! Laws the inference model obeys, stated and proved once for all inputs.
//!
//! Together with `Expr::infer`'s contract — the executable walk returns
//! exactly the model's answer — each law carries over to every run of the
//! engine.

use vstd::prelude::*;

use crate::ast::Expr;
use crate::context::SpecBinding;
use crate::context::SpecContext;
use crate::context::rename_map;
use crate::context::scopes_lookup;
use crate::context::spec_instantiate;
use crate::infer::lemma_infer_counter_monotonic;
use crate::infer::param_bindings;
use crate::infer::param_vars;
use crate::infer::spec_infer;
use crate::types::Error;
use crate::types::SpecScheme;
use crate::types::Type;
use crate::types::occurs;
use crate::types::spec_subst;
use crate::types::spec_unify;

verus! {

/// The renaming an instantiation builds is defined exactly on the generalized
/// variables, and every image is one of the freshly minted ones.
proof fn lemma_rename_map_props(bounds: Seq<usize>, vars: nat)
    requires
        vars + bounds.len() <= usize::MAX,
    ensures
        forall|k: usize| #[trigger] rename_map(bounds, vars).contains_key(k) ==> bounds.contains(k),
        forall|k: usize| #[trigger] bounds.contains(k) ==> rename_map(bounds, vars).contains_key(k),
        forall|k: usize|
            #[trigger] rename_map(bounds, vars).contains_key(k) ==> (rename_map(bounds, vars)[k]
                matches Type::Var(j)
            && vars <= j < vars + bounds.len()),
    decreases bounds.len(),
{
    if bounds.len() > 0 {
        lemma_rename_map_props(bounds.drop_last(), vars);
        assert forall|k: usize| #[trigger] bounds.contains(k) implies rename_map(
            bounds,
            vars,
        ).contains_key(k) by {
            let i = choose|i: int| 0 <= i < bounds.len() && bounds[i] == k;
            if i < bounds.len() - 1 {
                assert(bounds.drop_last()[i] == k);
                assert(bounds.drop_last().contains(k));
            }
        }
        assert forall|k: usize| #[trigger] rename_map(bounds, vars).contains_key(
            k,
        ) implies bounds.contains(k) by {
            if k == bounds.last() {
                assert(bounds[bounds.len() - 1] == k);
            } else {
                assert(rename_map(bounds.drop_last(), vars).contains_key(k));
                assert(bounds.drop_last().contains(k));
                let i = choose|i: int| 0 <= i < bounds.drop_last().len() && bounds.drop_last()[i]
                    == k;
                assert(bounds[i] == k);
            }
        }
    }
}

/// Substituting a map whose every image is a variable inside `[lo, hi)` can
/// only leave variables that were already there and unmapped, or introduce
/// ones from that range.
proof fn lemma_subst_into_range(t: Type, m: Map<usize, Type>, lo: nat, hi: nat, w: usize)
    requires
        forall|k: usize|
            #[trigger] m.contains_key(k) ==> (m[k] matches Type::Var(j) && lo <= j < hi),
        occurs(w, spec_subst(t, m)),
    ensures
        (occurs(w, t) && !m.contains_key(w)) || lo <= w < hi,
    decreases t,
{
    match t {
        Type::Var(v) => {
            if m.contains_key(v) {
                assert(spec_subst(t, m) == m[v]);
            } else {
                assert(spec_subst(t, m) == Type::Var(v));
            }
        },
        Type::Fn(k, r) => {
            if occurs(w, spec_subst(*k, m)) {
                lemma_subst_into_range(*k, m, lo, hi, w);
            } else {
                lemma_subst_into_range(*r, m, lo, hi, w);
            }
        },
    }
}

/// Instantiation never leaks a generalized variable: every variable of the
/// resulting type either already occurred, un-generalized, in the scheme's
/// type, or is one of the variables freshly minted by this instantiation.
pub proof fn lemma_instantiate_fresh(s: SpecScheme, vars: nat, w: usize)
    requires
        vars + s.bounds.len() <= usize::MAX,
        occurs(w, spec_instantiate(s, vars).0),
    ensures
        (occurs(w, s.ty) && !s.bounds.contains(w)) || (vars <= w < vars + s.bounds.len()),
{
    lemma_rename_map_props(s.bounds, vars);
    lemma_subst_into_range(
        s.ty,
        rename_map(s.bounds, vars),
        vars,
        (vars + s.bounds.len()) as nat,
        w,
    );
}

/// Every variable of a type lies below the bound.
pub open spec fn ty_below(t: Type, n: nat) -> bool
    decreases t,
{
    match t {
        Type::Var(v) => v < n,
        Type::Fn(k, r) => ty_below(*k, n) && ty_below(*r, n),
    }
}

/// Every variable a scheme records — in its type or its generalized set —
/// lies below the bound.
pub open spec fn scheme_below(s: SpecScheme, n: nat) -> bool {
    ty_below(s.ty, n) && forall|i: int| 0 <= i < s.bounds.len() ==> (#[trigger] s.bounds[i]) < n
}

/// Every scheme bound in one scope stays below the bound.
pub open spec fn scope_below(sc: Seq<SpecBinding>, n: nat) -> bool {
    forall|i: int| 0 <= i < sc.len() ==> #[trigger] scheme_below(sc[i].scheme, n)
}

/// Every scheme bound anywhere in the scope stack stays below the bound.
pub open spec fn scopes_below(ss: Seq<Seq<SpecBinding>>, n: nat) -> bool {
    forall|i: int| 0 <= i < ss.len() ==> #[trigger] scope_below(ss[i], n)
}

spec fn map_below(m: Map<usize, Type>, n: nat) -> bool {
    forall|k: usize| #[trigger] m.contains_key(k) ==> ty_below(m[k], n)
}

proof fn lemma_ty_below_mono(t: Type, n1: nat, n2: nat)
    requires
        ty_below(t, n1),
        n1 <= n2,
    ensures
        ty_below(t, n2),
    decreases t,
{
    match t {
        Type::Var(v) => {},
        Type::Fn(k, r) => {
            lemma_ty_below_mono(*k, n1, n2);
            lemma_ty_below_mono(*r, n1, n2);
        },
    }
}

proof fn lemma_scopes_below_mono(ss: Seq<Seq<SpecBinding>>, n1: nat, n2: nat)
    requires
        scopes_below(ss, n1),
        n1 <= n2,
    ensures
        scopes_below(ss, n2),
{
    assert forall|i: int| 0 <= i < ss.len() implies #[trigger] scope_below(ss[i], n2) by {
        assert(scope_below(ss[i], n1));
        assert forall|j: int| 0 <= j < ss[i].len() implies #[trigger] scheme_below(
            ss[i][j].scheme,
            n2,
        ) by {
            assert(scheme_below(ss[i][j].scheme, n1));
            lemma_ty_below_mono(ss[i][j].scheme.ty, n1, n2);
        }
    }
}

proof fn lemma_scope_lookup_below(sc: Seq<SpecBinding>, name: Seq<char>, n: nat)
    requires
        scope_below(sc, n),
    ensures
        crate::context::scope_lookup(sc, name) matches Some(s) ==> scheme_below(s, n),
    decreases sc.len(),
{
    if sc.len() > 0 {
        assert(scheme_below(sc[sc.len() - 1].scheme, n));
        assert forall|j: int| 0 <= j < sc.drop_last().len() implies #[trigger] scheme_below(
            sc.drop_last()[j].scheme,
            n,
        ) by {
            assert(scheme_below(sc[j].scheme, n));
        }
        lemma_scope_lookup_below(sc.drop_last(), name, n);
    }
}

proof fn lemma_scopes_lookup_below(ss: Seq<Seq<SpecBinding>>, name: Seq<char>, n: nat)
    requires
        scopes_below(ss, n),
    ensures
        crate::context::scopes_lookup(ss, name) matches Some(s) ==> scheme_below(s, n),
    decreases ss.len(),
{
    if ss.len() > 0 {
        assert(scope_below(ss[ss.len() - 1], n));
        lemma_scope_lookup_below(ss.last(), name, n);
        assert forall|i: int| 0 <= i < ss.drop_last().len() implies #[trigger] scope_below(
            ss.drop_last()[i],
            n,
        ) by {
            assert(scope_below(ss[i], n));
        }
        lemma_scopes_lookup_below(ss.drop_last(), name, n);
    }
}

proof fn lemma_subst_below(t: Type, m: Map<usize, Type>, n: nat)
    requires
        ty_below(t, n),
        map_below(m, n),
    ensures
        ty_below(spec_subst(t, m), n),
    decreases t,
{
    match t {
        Type::Var(v) => {},
        Type::Fn(k, r) => {
            lemma_subst_below(*k, m, n);
            lemma_subst_below(*r, m, n);
        },
    }
}

proof fn lemma_unify_below(t1: Type, t2: Type, m: Map<usize, Type>, n: nat)
    requires
        ty_below(t1, n),
        ty_below(t2, n),
        map_below(m, n),
    ensures
        map_below(crate::types::spec_unify(t1, t2, m).1, n),
    decreases t1,
{
    match t1 {
        Type::Var(v1) => {
            if !(t2 matches Type::Var(v2) && v1 == v2) {
                assert forall|k: usize| #[trigger] m.insert(v1, t2).contains_key(
                    k,
                ) implies ty_below(m.insert(v1, t2)[k], n) by {
                    if k != v1 {
                        assert(m.contains_key(k));
                    }
                }
            }
        },
        Type::Fn(k1, v1) => match t2 {
            Type::Fn(k2, v2) => {
                lemma_unify_below(*k1, *k2, m, n);
                let (ok, m1) = crate::types::spec_unify(*k1, *k2, m);
                if ok {
                    lemma_unify_below(*v1, *v2, m1, n);
                }
            },
            _ => {},
        },
    }
}

proof fn lemma_rename_map_below(bounds: Seq<usize>, vars: nat)
    requires
        vars + bounds.len() <= usize::MAX,
    ensures
        map_below(rename_map(bounds, vars), (vars + bounds.len()) as nat),
{
    lemma_rename_map_props(bounds, vars);
    assert forall|k: usize| #[trigger] rename_map(bounds, vars).contains_key(k) implies ty_below(
        rename_map(bounds, vars)[k],
        (vars + bounds.len()) as nat,
    ) by {
        assert(rename_map(bounds, vars)[k] matches Type::Var(j) && vars <= j < vars
            + bounds.len());
    }
}

proof fn lemma_instantiate_below(s: SpecScheme, vars: nat)
    requires
        scheme_below(s, vars),
        vars + s.bounds.len() <= usize::MAX,
    ensures
        ty_below(spec_instantiate(s, vars).0, (vars + s.bounds.len()) as nat),
{
    lemma_rename_map_below(s.bounds, vars);
    lemma_ty_below_mono(s.ty, vars, (vars + s.bounds.len()) as nat);
    lemma_subst_below(s.ty, rename_map(s.bounds, vars), (vars + s.bounds.len()) as nat);
}

/// Two separate instantiations of one scheme never share a minted variable:
/// when every variable of the scheme's type lies below the first counter and
/// the second instantiation starts no earlier than where the first ended,
/// then any variable the two resulting types share already occurred,
/// un-generalized, in the scheme itself — each generalized variable receives
/// distinct fresh copies in the two results.
pub proof fn lemma_instantiations_independent(s: SpecScheme, v1: nat, v2: nat, w: usize)
    requires
        forall|j: usize| #[trigger] occurs(j, s.ty) ==> j < v1,
        v1 + s.bounds.len() <= v2,
        v2 + s.bounds.len() <= usize::MAX,
        occurs(w, spec_instantiate(s, v1).0),
        occurs(w, spec_instantiate(s, v2).0),
    ensures
        occurs(w, s.ty) && !s.bounds.contains(w),
{
    lemma_instantiate_fresh(s, v1, w);
    lemma_instantiate_fresh(s, v2, w);
}

/// A function literal whose body is exactly a reference to its own parameter
/// infers, in any context and under either mode, to `Fn(Var(n), Var(n))` for
/// the fresh `n` minted for the parameter: both positions are the same
/// variable, and the counter advances by exactly one.
pub proof fn lemma_identity_literal(
    e: Expr,
    vars: nat,
    scopes: Seq<Seq<SpecBinding>>,
    poly: bool,
)
    requires
        e matches Expr::Fn(x, body) && *body matches Expr::Id(y) && y@ == x@,
    ensures
        spec_infer(e, vars, scopes, poly) == (
            Ok::<Type, Error>(
                Type::Fn(
                    Box::new(Type::Var(vars as usize)),
                    Box::new(Type::Var(vars as usize)),
                ),
            ),
            (vars + 1) as nat,
        ),
{
    let x = e->Fn_0;
    let body = e->Fn_1;
    let binding = SpecBinding {
        name: x@,
        scheme: crate::types::SpecScheme {
            bounds: Seq::empty(),
            ty: Type::Var(vars as usize),
        },
    };
    let inner = scopes.push(seq![binding]);
    assert(inner.last() == seq![binding]);
    assert(seq![binding].last() == binding);
    assert(crate::context::scopes_lookup(inner, x@) == Some(binding.scheme));
    assert(crate::context::rename_map(Seq::<usize>::empty(), vars + 1) =~= Map::<
        usize,
        Type,
    >::empty());
    assert(spec_infer(*body, vars + 1, inner, poly) == (
        Ok::<Type, Error>(Type::Var(vars as usize)),
        (vars + 1) as nat,
    ));
}

/// Applying an expression whose callee resolves to a type that is not a
/// function type fails with `ExpectedFn` — never with `Unification` — and the
/// argument is not considered at all: the counter stands where the callee's
/// walk left it.
pub proof fn lemma_call_of_non_function(
    e: Expr,
    vars: nat,
    scopes: Seq<Seq<SpecBinding>>,
    poly: bool,
)
    requires
        e is Call,
        spec_infer(*e->Call_0, vars, scopes, poly).0 is Ok,
        !(spec_infer(*e->Call_0, vars, scopes, poly).0->Ok_0 is Fn),
    ensures
        spec_infer(e, vars, scopes, poly) == (
            Err::<Type, Error>(Error::ExpectedFn),
            spec_infer(*e->Call_0, vars, scopes, poly).1,
        ),
{
}

/// Inference is deterministic: the model is a function of the tree, the
/// context and the mode alone, and `Expr::infer` returns exactly the model's
/// answer, so re-running a pass on the same tree from an identically
/// configured context yields the identical type — or the identical error —
/// with identical variable numbering.
pub proof fn lemma_infer_deterministic(
    e1: Expr,
    e2: Expr,
    c1: SpecContext,
    c2: SpecContext,
    poly1: bool,
    poly2: bool,
)
    requires
        e1 == e2,
        c1 == c2,
        poly1 == poly2,
    ensures
        spec_infer(e1, c1.vars, c1.scopes, poly1) == spec_infer(e2, c2.vars, c2.scopes, poly2),
{
}

/// Variable indices are confined to the pass that minted them: starting from
/// a scope stack whose every recorded variable lies below the counter, an
/// inferred type mentions only variables below the counter the pass ends
/// with. Fresh indices advance monotonically and are never reused, so a type
/// never mentions an index the counter has not yet reached.
pub proof fn lemma_infer_vars_below(e: Expr, vars: nat, scopes: Seq<Seq<SpecBinding>>, poly: bool)
    requires
        scopes_below(scopes, vars),
        spec_infer(e, vars, scopes, poly).1 <= usize::MAX,
    ensures
        spec_infer(e, vars, scopes, poly).0 matches Ok(t) ==> ty_below(
            t,
            spec_infer(e, vars, scopes, poly).1,
        ),
    decreases e,
{
    match e {
        Expr::Id(name) => {
            match scopes_lookup(scopes, name@) {
                Some(s) => {
                    lemma_scopes_lookup_below(scopes, name@, vars);
                    lemma_instantiate_below(s, vars);
                },
                None => {},
            }
        },
        Expr::Fn(x, body) => {
            let b = SpecBinding {
                name: x@,
                scheme: SpecScheme { bounds: Seq::empty(), ty: Type::Var(vars as usize) },
            };
            let inner = scopes.push(seq![b]);
            lemma_infer_counter_monotonic(*body, vars + 1, inner, poly);
            let v2 = spec_infer(*body, vars + 1, inner, poly).1;
            assert(vars + 1 <= usize::MAX);
            lemma_scopes_below_mono(scopes, vars, vars + 1);
            assert forall|i: int| 0 <= i < inner.len() implies #[trigger] scope_below(
                inner[i],
                vars + 1,
            ) by {
                if i < scopes.len() {
                    assert(scope_below(scopes[i], vars + 1));
                } else {
                    assert(inner[i] == seq![b]);
                    assert forall|j: int| 0 <= j < seq![b].len() implies #[trigger] scheme_below(
                        seq![b][j].scheme,
                        vars + 1,
                    ) by {
                        assert(seq![b][j] == b);
                    }
                }
            }
            lemma_infer_vars_below(*body, vars + 1, inner, poly);
            let r = spec_infer(*body, vars + 1, inner, poly).0;
            if r is Ok {
                assert(ty_below(Type::Var(vars as usize), v2));
                assert(ty_below(
                    Type::Fn(Box::new(Type::Var(vars as usize)), Box::new(r->Ok_0)),
                    v2,
                ));
            }
        },
        Expr::Let(key, params, value, body) => {
            let pv = params.deep_view();
            let vlen = pv.len();
            let pb = param_bindings(pv, vars);
            let inner = scopes.push(Seq::empty()).push(pb);
            lemma_infer_counter_monotonic(*value, vars + vlen, inner, poly);
            let (rv, v2) = spec_infer(*value, vars + vlen, inner, poly);
            let bounds = if poly {
                param_vars(vlen, vars)
            } else {
                Seq::<usize>::empty()
            };
            if rv is Ok {
                let outer = scopes.push(
                    seq![
                        SpecBinding {
                            name: key@,
                            scheme: SpecScheme { bounds, ty: rv->Ok_0 },
                        }
                    ],
                );
                lemma_infer_counter_monotonic(*body, v2, outer, poly);
            }
            assert(vars + vlen <= usize::MAX);
            lemma_scopes_below_mono(scopes, vars, vars + vlen);
            assert forall|i: int| 0 <= i < inner.len() implies #[trigger] scope_below(
                inner[i],
                vars + vlen,
            ) by {
                if i < scopes.len() {
                    assert(scope_below(scopes[i], vars + vlen));
                } else if i == scopes.len() {
                    assert(inner[i] == Seq::<SpecBinding>::empty());
                } else {
                    assert(inner[i] == pb);
                    assert forall|j: int| 0 <= j < pb.len() implies #[trigger] scheme_below(
                        pb[j].scheme,
                        vars + vlen,
                    ) by {
                        assert(pb[j].scheme.ty == Type::Var((vars + j) as usize));
                    }
                }
            }
            lemma_infer_vars_below(*value, vars + vlen, inner, poly);
            if rv is Ok {
                let t = rv->Ok_0;
                let keyscheme = SpecScheme { bounds, ty: t };
                lemma_ty_below_mono(t, v2, v2);
                assert forall|i: int| 0 <= i < bounds.len() implies (#[trigger] bounds[i])
                    < v2 by {
                    assert(bounds[i] == (vars + i) as usize);
                }
                assert(scheme_below(keyscheme, v2));
                let outer = scopes.push(seq![SpecBinding { name: key@, scheme: keyscheme }]);
                lemma_scopes_below_mono(scopes, vars, v2);
                assert forall|i: int| 0 <= i < outer.len() implies #[trigger] scope_below(
                    outer[i],
                    v2,
                ) by {
                    if i < scopes.len() {
                        assert(scope_below(scopes[i], v2));
                    } else {
                        let single = seq![SpecBinding { name: key@, scheme: keyscheme }];
                        assert(outer[i] == single);
                        assert forall|j: int|
                            0 <= j < single.len() implies #[trigger] scheme_below(
                            single[j].scheme,
                            v2,
                        ) by {
                            assert(single[j].scheme == keyscheme);
                        }
                    }
                }
                lemma_infer_vars_below(*body, v2, outer, poly);
            }
        },
        Expr::Call(f, x) => {
            lemma_infer_counter_monotonic(*f, vars, scopes, poly);
            let (rf, v2) = spec_infer(*f, vars, scopes, poly);
            match rf {
                Ok(ft) => match ft {
                    Type::Fn(pt, rt) => {
                        lemma_infer_counter_monotonic(*x, v2, scopes, poly);
                        let (rx, v3) = spec_infer(*x, v2, scopes, poly);
                        lemma_infer_vars_below(*f, vars, scopes, poly);
                        lemma_scopes_below_mono(scopes, vars, v2);
                        lemma_infer_vars_below(*x, v2, scopes, poly);
                        if rx is Ok {
                            let xt = rx->Ok_0;
                            let (ok, m) = spec_unify(*pt, xt, Map::empty());
                            lemma_ty_below_mono(*pt, v2, v3);
                            assert forall|k: usize|
                                #[trigger] Map::<usize, Type>::empty().contains_key(
                                k,
                            ) implies ty_below(Map::<usize, Type>::empty()[k], v3) by {}
                            lemma_unify_below(*pt, xt, Map::empty(), v3);
                            if ok {
                                lemma_ty_below_mono(*rt, v2, v3);
                                lemma_subst_below(*rt, m, v3);
                            }
                        }
                    },
                    _ => {},
                },
                Err(_) => {},
            }
        },
    }
}

} // verus!
