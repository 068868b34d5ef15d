//! The term language of types, polymorphic schemes, and the unifier.
//!
//! A type is either an unresolved variable, identified by a globally unique
//! index, or a function type; no other base types exist in this core. A scheme
//! pairs a type with the set of variable indices generalized at its binding
//! site. The unifier is a finite partial map from variable index to type,
//! built during one application and discarded afterwards.

use vstd::prelude::*;

verus! {

/// The errors inference can report: an identifier not found in any enclosing
/// scope, an application whose callee is not a function type, and two types
/// that cannot be made equal.
#[derive(Debug, PartialEq, Eq)]
pub enum Error {
    Undefined,
    ExpectedFn,
    Unification,
}

/// A type term: an unresolved type variable or a function type.
#[derive(Debug, PartialEq, Eq)]
pub enum Type {
    Var(usize),
    Fn(Box<Type>, Box<Type>),
}

impl Clone for Type {
    fn clone(&self) -> (r: Self)
        ensures
            r == *self,
        decreases *self,
    {
        match self {
            Type::Var(v) => Type::Var(*v),
            Type::Fn(k, v) => Type::Fn(Box::new((**k).clone()), Box::new((**v).clone())),
        }
    }
}

/// The mathematical view of a `Scheme`.
pub ghost struct SpecScheme {
    pub bounds: Seq<usize>,
    pub ty: Type,
}

/// A polymorphic scheme: a type together with the variable indices that are
/// universally quantified for this binding. An empty `bounds` list is a
/// monomorphic type.
#[derive(Debug, PartialEq, Eq)]
pub struct Scheme {
    pub bounds: Vec<usize>,
    pub ty: Type,
}

impl View for Scheme {
    type V = SpecScheme;

    open spec fn view(&self) -> SpecScheme {
        SpecScheme { bounds: self.bounds@, ty: self.ty }
    }
}

impl Clone for Scheme {
    fn clone(&self) -> (r: Self)
        ensures
            r@ == self@,
    {
        let mut bounds: Vec<usize> = Vec::new();
        let mut i: usize = 0;
        while i < self.bounds.len()
            invariant
                i <= self.bounds.len(),
                bounds@ == self.bounds@.take(i as int),
            decreases self.bounds.len() - i,
        {
            bounds.push(self.bounds[i]);
            proof {
                assert(bounds@ =~= self.bounds@.take(i + 1));
            }
            i = i + 1;
        }
        proof {
            assert(bounds@ =~= self.bounds@);
        }
        Scheme { bounds, ty: self.ty.clone() }
    }
}

impl Scheme {
    /// Wrap a type as a monomorphic scheme: nothing is generalized.
    pub fn from(ty: Type) -> (r: Self)
        ensures
            r@ == (SpecScheme { bounds: Seq::<usize>::empty(), ty }),
    {
        Scheme { bounds: Vec::new(), ty }
    }
}

/// Apply a substitution to a type: every variable with an entry in the map is
/// replaced by its image, and function types are rewritten structurally.
pub open spec fn spec_subst(t: Type, m: Map<usize, Type>) -> Type
    decreases t,
{
    match t {
        Type::Var(v) => if m.contains_key(v) {
            m[v]
        } else {
            Type::Var(v)
        },
        Type::Fn(k, v) => Type::Fn(Box::new(spec_subst(*k, m)), Box::new(spec_subst(*v, m))),
    }
}

/// Whether a type variable occurs anywhere in a type.
pub open spec fn occurs(v: usize, t: Type) -> bool
    decreases t,
{
    match t {
        Type::Var(w) => v == w,
        Type::Fn(k, r) => occurs(v, *k) || occurs(v, *r),
    }
}

/// Solve one equality between two types, extending the substitution map.
/// Returns whether unification succeeded together with the resulting map;
/// on failure the map holds whatever was bound before the mismatch.
///
/// A variable on the left unifies with anything: the identical variable with
/// no change, anything else by binding the variable unconditionally. Two
/// function types unify parameter first, then result under the grown map. A
/// function type confronted with anything else fails.
pub open spec fn spec_unify(t1: Type, t2: Type, m: Map<usize, Type>) -> (bool, Map<usize, Type>)
    decreases t1,
{
    match t1 {
        Type::Var(v1) => if t2 matches Type::Var(v2) && v1 == v2 {
            (true, m)
        } else {
            (true, m.insert(v1, t2))
        },
        Type::Fn(k1, v1) => match t2 {
            Type::Fn(k2, v2) => {
                let (ok, m1) = spec_unify(*k1, *k2, m);
                if ok {
                    spec_unify(*v1, *v2, m1)
                } else {
                    (false, m1)
                }
            },
            _ => (false, m),
        },
    }
}

/// The substitution map an entry list denotes: later entries for the same
/// variable shadow earlier ones.
spec fn entries_map(s: Seq<(usize, Type)>) -> Map<usize, Type>
    decreases s.len(),
{
    if s.len() == 0 {
        Map::empty()
    } else {
        entries_map(s.drop_last()).insert(s.last().0, s.last().1)
    }
}

/// A finite partial mapping from type-variable index to type, populated
/// during a single application and discarded after use.
#[derive(Debug)]
pub struct Unifier {
    entries: Vec<(usize, Type)>,
}

impl View for Unifier {
    type V = Map<usize, Type>;

    closed spec fn view(&self) -> Map<usize, Type> {
        entries_map(self.entries@)
    }
}

impl Unifier {
    /// An empty substitution.
    pub fn new() -> (r: Self)
        ensures
            r@ == Map::<usize, Type>::empty(),
    {
        Unifier { entries: Vec::new() }
    }

    /// Bind a variable to a type, replacing any earlier binding for it.
    pub fn insert(&mut self, var: usize, ty: Type)
        ensures
            final(self)@ == old(self)@.insert(var, ty),
    {
        self.entries.push((var, ty));
        proof {
            assert(self.entries@.drop_last() =~= old(self).entries@);
        }
    }

    /// Look up the type a variable is bound to, if any.
    pub fn get(&self, var: usize) -> (r: Option<&Type>)
        ensures
            match r {
                Some(t) => self@.contains_key(var) && *t == self@[var],
                None => !self@.contains_key(var),
            },
    {
        let mut i: usize = self.entries.len();
        proof {
            assert(self.entries@.take(i as int) =~= self.entries@);
        }
        while i > 0
            invariant
                i <= self.entries.len(),
                lookup_agrees(self.entries@, i as int, var),
            decreases i,
        {
            i = i - 1;
            if self.entries[i].0 == var {
                proof {
                    assert(self.entries@.take(i + 1).drop_last() =~= self.entries@.take(i as int));
                    assert(self.entries@.take(i + 1).last() == self.entries@[i as int]);
                }
                return Some(&self.entries[i].1);
            }
            proof {
                assert(self.entries@.take(i + 1).drop_last() =~= self.entries@.take(i as int));
            }
        }
        proof {
            assert(self.entries@.take(0) =~= Seq::<(usize, Type)>::empty());
        }
        None
    }
}

/// The map of a full entry list agrees, at `var`, with the map of its first
/// `i` entries, as long as no later entry binds `var`.
spec fn lookup_agrees(s: Seq<(usize, Type)>, i: int, var: usize) -> bool {
    &&& 0 <= i <= s.len()
    &&& entries_map(s).contains_key(var) == entries_map(s.take(i)).contains_key(var)
    &&& entries_map(s).contains_key(var) ==> entries_map(s)[var] == entries_map(s.take(i))[var]
}

impl Type {
    /// Build the type the substitution rewrites this one to.
    fn substituted(&self, unifier: &Unifier) -> (r: Type)
        ensures
            r == spec_subst(*self, unifier@),
        decreases *self,
    {
        match self {
            Type::Var(v) => match unifier.get(*v) {
                Some(t) => t.clone(),
                None => Type::Var(*v),
            },
            Type::Fn(k, v) => Type::Fn(
                Box::new((**k).substituted(unifier)),
                Box::new((**v).substituted(unifier)),
            ),
        }
    }

    /// Apply the substitution to this type in place: each bound variable is
    /// replaced by its image, recursively through function types.
    pub fn subst(&mut self, unifier: &Unifier)
        ensures
            *final(self) == spec_subst(*old(self), unifier@),
    {
        let t = self.substituted(unifier);
        *self = t;
    }

    /// Solve `self == other`, extending the unifier in place. Succeeds exactly
    /// when the model does, with the unifier left in the model's final state;
    /// the only reported failure is a shape mismatch.
    pub fn unify(&self, other: &Self, unifier: &mut Unifier) -> (r: Result<(), Error>)
        ensures
            ({
                let (ok, m) = spec_unify(*self, *other, old(unifier)@);
                &&& final(unifier)@ == m
                &&& ok ==> r == Ok::<(), Error>(())
                &&& !ok ==> r == Err::<(), Error>(Error::Unification)
            }),
        decreases *self,
    {
        match (self, other) {
            (Type::Var(v1), _) => {
                if let Type::Var(v2) = other {
                    if v1 == v2 {
                        return Ok(());
                    }
                }
                unifier.insert(*v1, other.clone());
                Ok(())
            },
            (Type::Fn(k1, v1), Type::Fn(k2, v2)) => {
                match (**k1).unify(k2, unifier) {
                    Ok(()) => (**v1).unify(v2, unifier),
                    Err(e) => Err(e),
                }
            },
            _ => Err(Error::Unification),
        }
    }
}

} // verus!
