// The supporting structures on their own: unifier, substitution, schemes,
// and the scope stack.

use hm_infer::Context;
use hm_infer::Error;
use hm_infer::Scheme;
use hm_infer::Type;
use hm_infer::Unifier;

fn var(i: usize) -> Type {
    Type::Var(i)
}

fn fun(k: Type, v: Type) -> Type {
    Type::Fn(Box::new(k), Box::new(v))
}

#[test]
fn unify_identical_variables_changes_nothing() {
    let mut unifier = Unifier::new();
    let r = var(3).unify(&var(3), &mut unifier);
    assert_eq!(r, Ok(()));
    assert!(unifier.get(3).is_none());
}

#[test]
fn unify_binds_a_variable_unconditionally() {
    let mut unifier = Unifier::new();
    let r = var(0).unify(&fun(var(1), var(2)), &mut unifier);
    assert_eq!(r, Ok(()));
    assert_eq!(unifier.get(0), Some(&fun(var(1), var(2))));
}

#[test]
fn unify_functions_componentwise() {
    let mut unifier = Unifier::new();
    let r = fun(var(0), var(1)).unify(&fun(var(2), var(3)), &mut unifier);
    assert_eq!(r, Ok(()));
    assert_eq!(unifier.get(0), Some(&var(2)));
    assert_eq!(unifier.get(1), Some(&var(3)));
}

#[test]
fn unify_function_against_variable_fails() {
    // A variable on the left binds; a function on the left does not.
    let mut unifier = Unifier::new();
    let r = fun(var(0), var(1)).unify(&var(2), &mut unifier);
    assert_eq!(r, Err(Error::Unification));
}

#[test]
fn subst_rewrites_recursively() {
    let mut unifier = Unifier::new();
    unifier.insert(0, fun(var(5), var(6)));
    let mut ty = fun(var(0), fun(var(1), var(0)));
    ty.subst(&unifier);
    assert_eq!(
        ty,
        fun(fun(var(5), var(6)), fun(var(1), fun(var(5), var(6))))
    );
}

#[test]
fn fresh_counter_advances_and_never_repeats() {
    let mut context = Context::new();
    assert_eq!(context.fresh(), 0);
    assert_eq!(context.fresh(), 1);
    assert_eq!(context.fresh(), 2);
}

#[test]
fn instantiations_share_no_minted_variable() {
    // Two instantiations of one scheme rename its generalized variable to
    // distinct fresh variables.
    let mut context = Context::new();
    let scheme = Scheme { bounds: vec![0], ty: fun(var(0), var(0)) };
    let first = context.instantiate(&scheme);
    let second = context.instantiate(&scheme);
    assert_eq!(first, fun(var(0), var(0)));
    assert_eq!(second, fun(var(1), var(1)));
}

#[test]
fn instantiating_a_monomorphic_scheme_is_a_pass_through() {
    let mut context = Context::new();
    let scheme = Scheme::from(fun(var(4), var(4)));
    let ty = context.instantiate(&scheme);
    assert_eq!(ty, fun(var(4), var(4)));
    assert_eq!(context.fresh(), 0);
}

#[test]
fn lookup_shadows_and_reverts_per_scope() {
    let name = "x".to_string();
    let mut context = Context::new();
    context.enter();
    context.insert(&name, Scheme::from(var(1)));
    context.enter();
    context.insert(&name, Scheme::from(var(2)));
    assert_eq!(context.get(&name), Ok(var(2)));
    context.exit();
    assert_eq!(context.get(&name), Ok(var(1)));
}

#[test]
fn lookup_of_an_unbound_name_fails() {
    let mut context = Context::new();
    context.enter();
    context.insert(&"x".to_string(), Scheme::from(var(0)));
    assert_eq!(context.get(&"y".to_string()), Err(Error::Undefined));
}

#[test]
fn later_binding_in_one_scope_wins() {
    let name = "x".to_string();
    let mut context = Context::new();
    context.enter();
    context.insert(&name, Scheme::from(var(1)));
    context.insert(&name, Scheme::from(var(2)));
    assert_eq!(context.get(&name), Ok(var(2)));
}

#[test]
fn last_returns_the_innermost_scope() {
    let name = "x".to_string();
    let mut context = Context::new();
    context.enter();
    context.enter();
    context.insert(&name, Scheme::from(var(0)));
    let scope = context.last();
    assert_eq!(scope.len(), 1);
    assert_eq!(scope[0].name, name);
}
