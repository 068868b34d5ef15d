//! The lexical context: a fresh-variable counter and a stack of scopes.
//!
//! Each scope maps identifiers to schemes. Lookup searches innermost to
//! outermost; within one scope a later binding for the same name shadows an
//! earlier one, and shadowing reverts when the scope is exited. The counter
//! only ever advances, so variable indices are never reused within one pass.

use vstd::prelude::*;

use crate::types::Error;
use crate::types::Scheme;
use crate::types::SpecScheme;
use crate::types::Type;
use crate::types::Unifier;
use crate::types::spec_subst;

verus! {

/// One identifier-to-scheme binding inside a scope.
#[derive(Debug, PartialEq, Eq)]
pub struct Binding {
    pub name: String,
    pub scheme: Scheme,
}

/// The mathematical view of a `Binding`.
pub ghost struct SpecBinding {
    pub name: Seq<char>,
    pub scheme: SpecScheme,
}

impl View for Binding {
    type V = SpecBinding;

    open spec fn view(&self) -> SpecBinding {
        SpecBinding { name: self.name@, scheme: self.scheme@ }
    }
}

/// The view of one scope: its bindings in insertion order.
pub open spec fn scope_view(s: Seq<Binding>) -> Seq<SpecBinding> {
    Seq::new(s.len(), |i: int| s[i]@)
}

/// The mathematical view of a `Context`.
pub ghost struct SpecContext {
    pub vars: nat,
    pub scopes: Seq<Seq<SpecBinding>>,
}

/// The context a pass threads through the walk: the fresh-variable counter
/// and the stack of open scopes, innermost last.
#[derive(Debug, PartialEq, Eq)]
pub struct Context {
    pub vars: usize,
    pub scopes: Vec<Vec<Binding>>,
}

impl View for Context {
    type V = SpecContext;

    open spec fn view(&self) -> SpecContext {
        SpecContext {
            vars: self.vars as nat,
            scopes: Seq::new(self.scopes@.len(), |i: int| scope_view(self.scopes@[i]@)),
        }
    }
}

/// Search one scope for a name, innermost (latest) binding first.
pub open spec fn scope_lookup(s: Seq<SpecBinding>, name: Seq<char>) -> Option<SpecScheme>
    decreases s.len(),
{
    if s.len() == 0 {
        None
    } else if s.last().name == name {
        Some(s.last().scheme)
    } else {
        scope_lookup(s.drop_last(), name)
    }
}

/// Search the scope stack for a name, innermost scope first.
pub open spec fn scopes_lookup(ss: Seq<Seq<SpecBinding>>, name: Seq<char>) -> Option<SpecScheme>
    decreases ss.len(),
{
    if ss.len() == 0 {
        None
    } else {
        match scope_lookup(ss.last(), name) {
            Some(s) => Some(s),
            None => scopes_lookup(ss.drop_last(), name),
        }
    }
}

/// The renaming a scheme instantiation applies: the i-th generalized variable
/// is mapped to the i-th freshly minted one, a later duplicate shadowing an
/// earlier entry as the map is built.
pub open spec fn rename_map(bounds: Seq<usize>, vars: nat) -> Map<usize, Type>
    decreases bounds.len(),
{
    if bounds.len() == 0 {
        Map::empty()
    } else {
        rename_map(bounds.drop_last(), vars).insert(
            bounds.last(),
            Type::Var((vars + bounds.len() - 1) as usize),
        )
    }
}

/// Instantiating a scheme replaces each generalized variable by a freshly
/// minted one and advances the counter by the number of generalized
/// variables. Two instantiations of one scheme never share a minted variable.
pub open spec fn spec_instantiate(s: SpecScheme, vars: nat) -> (Type, nat) {
    (spec_subst(s.ty, rename_map(s.bounds, vars)), vars + s.bounds.len())
}

impl Context {
    /// An empty context: counter at zero, no open scope.
    pub fn new() -> (r: Self)
        ensures
            r@.vars == 0,
            r@.scopes == Seq::<Seq<SpecBinding>>::empty(),
    {
        let r = Context { vars: 0, scopes: Vec::new() };
        proof {
            assert(r@.scopes =~= Seq::<Seq<SpecBinding>>::empty());
        }
        r
    }

    /// The innermost open scope.
    pub fn last(&self) -> (r: &Vec<Binding>)
        requires
            self@.scopes.len() > 0,
        ensures
            scope_view(r@) == self@.scopes.last(),
    {
        &self.scopes[self.scopes.len() - 1]
    }

    /// The innermost open scope, borrowed for mutation: the context after the
    /// borrow carries whatever the caller leaves in that scope.
    pub fn last_mut(&mut self) -> (r: &mut Vec<Binding>)
        requires
            old(self)@.scopes.len() > 0,
        ensures
            scope_view((*r)@) == old(self)@.scopes.last(),
            final(self)@.vars == old(self)@.vars,
            final(self)@.scopes.len() == old(self)@.scopes.len(),
            forall|i: int|
                0 <= i < old(self)@.scopes.len() - 1 ==> final(self)@.scopes[i] == old(
                    self,
                )@.scopes[i],
            final(self)@.scopes.last() == scope_view(final(r)@),
    {
        let n = self.scopes.len();
        &mut self.scopes[n - 1]
    }

    /// Push a new, empty innermost scope.
    pub fn enter(&mut self)
        ensures
            final(self)@.vars == old(self)@.vars,
            final(self)@.scopes == old(self)@.scopes.push(Seq::<SpecBinding>::empty()),
    {
        self.scopes.push(Vec::new());
        proof {
            assert(scope_view(Seq::<Binding>::empty()) =~= Seq::<SpecBinding>::empty());
            assert(self@.scopes =~= old(self)@.scopes.push(Seq::<SpecBinding>::empty()));
        }
    }

    /// Pop the innermost scope. Calling this with no open scope is a
    /// contract violation, so the precondition forbids it.
    pub fn exit(&mut self)
        requires
            old(self)@.scopes.len() > 0,
        ensures
            final(self)@.vars == old(self)@.vars,
            final(self)@.scopes == old(self)@.scopes.drop_last(),
    {
        let _popped = self.scopes.pop();
        proof {
            assert(self@.scopes =~= old(self)@.scopes.drop_last());
        }
    }

    /// Mint a brand-new type variable index and advance the counter.
    pub fn fresh(&mut self) -> (v: usize)
        requires
            old(self)@.vars < usize::MAX,
        ensures
            v == old(self)@.vars,
            final(self)@.vars == old(self)@.vars + 1,
            final(self)@.scopes == old(self)@.scopes,
    {
        let out = self.vars;
        self.vars = self.vars + 1;
        proof {
            assert(self@.scopes =~= old(self)@.scopes);
        }
        out
    }

    /// Add a binding to the innermost scope, shadowing any earlier binding of
    /// the same name for subsequent lookups in this scope.
    pub fn insert(&mut self, id: &String, scheme: Scheme)
        requires
            old(self)@.scopes.len() > 0,
        ensures
            final(self)@.vars == old(self)@.vars,
            final(self)@.scopes == old(self)@.scopes.update(
                old(self)@.scopes.len() - 1,
                old(self)@.scopes.last().push(SpecBinding { name: id@, scheme: scheme@ }),
            ),
    {
        let ghost prev = old(self)@.scopes.last();
        let ghost added = SpecBinding { name: id@, scheme: scheme@ };
        let scope = self.last_mut();
        scope.push(Binding { name: id.clone(), scheme });
        proof {
            assert(scope_view(final(scope)@) =~~= prev.push(added));
        }
        proof {
            assert(self@.scopes =~~= old(self)@.scopes.update(
                old(self)@.scopes.len() - 1,
                prev.push(added),
            ));
        }
    }

    /// Instantiate a scheme: mint a fresh variable for every generalized one,
    /// build the renaming, and substitute it through the scheme's type. The
    /// scheme itself is read-only; only the counter advances.
    pub fn instantiate(&mut self, scheme: &Scheme) -> (t: Type)
        requires
            old(self)@.vars + scheme@.bounds.len() <= usize::MAX,
        ensures
            t == spec_instantiate(scheme@, old(self)@.vars).0,
            final(self)@.vars == spec_instantiate(scheme@, old(self)@.vars).1,
            final(self)@.scopes == old(self)@.scopes,
    {
        let ghost v0 = old(self)@.vars;
        let mut unifier = Unifier::new();
        let mut i: usize = 0;
        while i < scheme.bounds.len()
            invariant
                i <= scheme.bounds.len(),
                self@.vars == v0 + i,
                v0 + scheme@.bounds.len() <= usize::MAX,
                self@.scopes == old(self)@.scopes,
                unifier@ == rename_map(scheme@.bounds.take(i as int), v0),
            decreases scheme.bounds.len() - i,
        {
            let f = self.fresh();
            unifier.insert(scheme.bounds[i], Type::Var(f));
            proof {
                let pre = scheme@.bounds.take(i as int);
                let post = scheme@.bounds.take(i + 1);
                assert(post.drop_last() =~= pre);
                assert(post.last() == scheme@.bounds[i as int]);
            }
            i = i + 1;
        }
        proof {
            assert(scheme@.bounds.take(scheme@.bounds.len() as int) =~= scheme@.bounds);
        }
        let mut ty = scheme.ty.clone();
        ty.subst(&unifier);
        ty
    }

    /// Look a name up through the scope stack, innermost to outermost, and
    /// return a fresh instantiation of the first scheme found; fail with
    /// `Undefined` when no scope binds the name.
    pub fn get(&mut self, id: &String) -> (r: Result<Type, Error>)
        requires
            (match scopes_lookup(old(self)@.scopes, id@) {
                Some(s) => old(self)@.vars + s.bounds.len() <= usize::MAX,
                None => true,
            }),
        ensures
            final(self)@.scopes == old(self)@.scopes,
            (match scopes_lookup(old(self)@.scopes, id@) {
                Some(s) => r == Ok::<Type, Error>(spec_instantiate(s, old(self)@.vars).0)
                    && final(self)@.vars == spec_instantiate(s, old(self)@.vars).1,
                None => r == Err::<Type, Error>(Error::Undefined)
                    && final(self)@.vars == old(self)@.vars,
            }),
    {
        let ghost all = self@.scopes;
        let ghost name = id@;
        let mut found: Option<Scheme> = None;
        let mut i: usize = self.scopes.len();
        proof {
            assert(all.take(i as int) =~= all);
        }
        while i > 0 && found.is_none()
            invariant
                i <= self.scopes.len(),
                all == self@.scopes,
                name == id@,
                (match found {
                    Some(s) => scopes_lookup(all, name) matches Some(f) && f == s@,
                    None => scopes_lookup(all, name) == scopes_lookup(all.take(i as int), name),
                }),
            decreases i,
        {
            i = i - 1;
            proof {
                assert(all.take(i + 1).drop_last() =~= all.take(i as int));
                assert(all.take(i + 1).last() == all[i as int]);
            }
            let scope = &self.scopes[i];
            let ghost sv = all[i as int];
            let mut j: usize = scope.len();
            proof {
                assert(sv.take(j as int) =~= sv);
            }
            while j > 0 && found.is_none()
                invariant
                    j <= scope.len(),
                    sv == scope_view(scope@),
                    name == id@,
                    (match found {
                        Some(s) => scope_lookup(sv, name) matches Some(f) && f == s@,
                        None => scope_lookup(sv, name) == scope_lookup(
                            sv.take(j as int),
                            name,
                        ),
                    }),
                decreases j,
            {
                j = j - 1;
                proof {
                    assert(sv.take(j + 1).drop_last() =~= sv.take(j as int));
                    assert(sv.take(j + 1).last() == sv[j as int]);
                }
                if scope[j].name == *id {
                    found = Some(scope[j].scheme.clone());
                } else {
                    proof {
                        assert(sv.take(j as int).len() == j);
                    }
                }
            }
            proof {
                if found is None {
                    assert(sv.take(0) =~= Seq::<SpecBinding>::empty());
                }
            }
        }
        proof {
            if found is None {
                assert(all.take(0) =~= Seq::<Seq<SpecBinding>>::empty());
            }
        }
        match found {
            Some(scheme) => Ok(self.instantiate(&scheme)),
            None => Err(Error::Undefined),
        }
    }
}

} // verus!
