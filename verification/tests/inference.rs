// The inference walk end to end: the expression forms, both modes, and the
// error paths.

use hm_infer::Context;
use hm_infer::Expr;
use hm_infer::Flags;
use hm_infer::Error;
use hm_infer::Scheme;
use hm_infer::Type;

fn s(t: &str) -> String {
    t.to_string()
}

fn var(i: usize) -> Type {
    Type::Var(i)
}

fn fun(k: Type, v: Type) -> Type {
    Type::Fn(Box::new(k), Box::new(v))
}

#[test]
fn test_undefined1() {
    let mut context = Context::new();
    let e = Expr::Id(s("xyz"));
    let flags = Flags::all();
    let result = e.infer(&mut context, &flags);
    assert_eq!(
        result,
        Err(Error::Undefined),
        "use of undefined variable results in type error"
    );
}

#[test]
fn test_undefined2() {
    // y -> let id = x -> x; id x
    let mut context = Context::new();
    let e = Expr::Fn(
        s("y"),
        Box::new(Expr::Let(
            s("id"),
            Vec::new(),
            Box::new(Expr::Fn(s("x"), Box::new(Expr::Id(s("x"))))),
            Box::new(Expr::Call(
                Box::new(Expr::Id(s("id"))),
                Box::new(Expr::Id(s("x"))),
            )),
        )),
    );
    let flags = Flags::all();
    let result = e.infer(&mut context, &flags);
    assert_eq!(
        result,
        Err(Error::Undefined),
        "use of variable defined in inner scope"
    );
}

#[test]
fn infer_ident_fn() {
    let mut context = Context::new();
    let e = Expr::Fn(s("x"), Box::new(Expr::Id(s("x"))));
    let flags = Flags::all();
    let result = e.infer(&mut context, &flags);
    assert_eq!(
        result,
        Ok(fun(var(0), var(0))),
        "identity function has correct type"
    );
}

#[test]
fn test_let() {
    let mut context = Context::new();
    let id = Expr::Fn(s("x"), Box::new(Expr::Id(s("x"))));
    let e = Expr::Let(s("id"), Vec::new(), Box::new(id), Box::new(Expr::Id(s("id"))));
    let flags = Flags::all();
    let result = e.infer(&mut context, &flags);
    assert_eq!(
        result,
        Ok(fun(var(0), var(0))),
        "use of let var results in type substitution"
    );
}

#[test]
fn test_identity_identity() {
    // y -> let id = x -> x; id id
    let mut context = Context::new();
    let e = Expr::Fn(
        s("y"),
        Box::new(Expr::Let(
            s("id"),
            Vec::new(),
            Box::new(Expr::Fn(s("x"), Box::new(Expr::Id(s("x"))))),
            Box::new(Expr::Call(
                Box::new(Expr::Id(s("id"))),
                Box::new(Expr::Id(s("id"))),
            )),
        )),
    );
    let flags = Flags::all();
    let result = e.infer(&mut context, &flags);
    assert_eq!(
        result,
        Ok(fun(var(0), fun(var(1), var(1)))),
        "ident of ident has ident type"
    )
}

#[test]
fn test_identity_application() {
    // y -> let id = x -> x; id y
    let mut context = Context::new();
    let e = Expr::Fn(
        s("y"),
        Box::new(Expr::Let(
            s("id"),
            Vec::new(),
            Box::new(Expr::Fn(s("x"), Box::new(Expr::Id(s("x"))))),
            Box::new(Expr::Call(
                Box::new(Expr::Id(s("id"))),
                Box::new(Expr::Id(s("y"))),
            )),
        )),
    );
    let flags = Flags::all();
    let result = e.infer(&mut context, &flags);
    assert_eq!(
        result,
        Ok(fun(var(0), var(0))),
        "ident of var has var type"
    )
}

#[test]
fn test_polymorphic_id() {
    // let id = x -> x,
    //     first = x y -> x;
    // first (id id) (id first)
    //     => a -> a
    let mut context = Context::new();
    let expr = Expr::Let(
        s("id"),
        vec![],
        Box::new(Expr::Fn(s("x"), Box::new(Expr::Id(s("x"))))),
        Box::new(Expr::Let(
            s("first"),
            vec![],
            Box::new(Expr::Fn(
                s("x"),
                Box::new(Expr::Fn(s("y"), Box::new(Expr::Id(s("x"))))),
            )),
            Box::new(Expr::Call(
                Box::new(Expr::Call(
                    Box::new(Expr::Id(s("first"))),
                    Box::new(Expr::Call(
                        Box::new(Expr::Id(s("id"))),
                        Box::new(Expr::Id(s("id"))),
                    )),
                )),
                Box::new(Expr::Call(
                    Box::new(Expr::Id(s("id"))),
                    Box::new(Expr::Id(s("first"))),
                )),
            )),
        )),
    );
    let flags = Flags::all();
    let result = expr.infer(&mut context, &flags);
    assert_eq!(
        result,
        Ok(fun(var(0), var(0))),
        "type checker supports polymorphic identifier function"
    )
}

#[test]
fn test_expected_fn() {
    // x -> x x: the callee resolves to a bare variable, not a function type
    let mut context = Context::new();
    let e = Expr::Fn(
        s("x"),
        Box::new(Expr::Call(
            Box::new(Expr::Id(s("x"))),
            Box::new(Expr::Id(s("x"))),
        )),
    );
    let flags = Flags::all();
    let result = e.infer(&mut context, &flags);
    assert_eq!(
        result,
        Err(Error::ExpectedFn),
        "applying a non-function yields ExpectedFn, not Unification"
    );
}

#[test]
fn test_unification_error() {
    // With f : Fn(Fn(a, a), b) and g : c in scope, f g pairs a function
    // parameter type against a bare variable argument on the left.
    let mut context = Context::new();
    context.enter();
    context.insert(
        &s("f"),
        Scheme::from(fun(fun(var(10), var(10)), var(11))),
    );
    context.insert(&s("g"), Scheme::from(var(12)));
    let e = Expr::Call(Box::new(Expr::Id(s("f"))), Box::new(Expr::Id(s("g"))));
    let flags = Flags::all();
    let result = e.infer(&mut context, &flags);
    assert_eq!(result, Err(Error::Unification));
}

#[test]
fn test_idempotence() {
    // Two passes over the same tree from fresh, identically-configured
    // contexts give the identical numbering and result.
    let build = || {
        Expr::Fn(
            s("y"),
            Box::new(Expr::Let(
                s("id"),
                Vec::new(),
                Box::new(Expr::Fn(s("x"), Box::new(Expr::Id(s("x"))))),
                Box::new(Expr::Call(
                    Box::new(Expr::Id(s("id"))),
                    Box::new(Expr::Id(s("id"))),
                )),
            )),
        )
    };
    let flags = Flags::all();
    let mut context1 = Context::new();
    let first = build().infer(&mut context1, &flags);
    let mut context2 = Context::new();
    let second = build().infer(&mut context2, &flags);
    assert_eq!(first, second);
    assert_eq!(first, Ok(fun(var(0), fun(var(1), var(1)))));
}

#[test]
fn test_mode_flag() {
    // let f x = x; (u -> v -> u) f
    // With generalization each use of f is freshly instantiated; without it
    // f shares the variable minted for its parameter with the whole pass.
    let build = || {
        Expr::Let(
            s("f"),
            vec![s("x")],
            Box::new(Expr::Id(s("x"))),
            Box::new(Expr::Call(
                Box::new(Expr::Fn(
                    s("u"),
                    Box::new(Expr::Fn(s("v"), Box::new(Expr::Id(s("u"))))),
                )),
                Box::new(Expr::Id(s("f"))),
            )),
        )
    };
    let mut poly_context = Context::new();
    let poly = build().infer(&mut poly_context, &Flags::all());
    assert_eq!(poly, Ok(fun(var(2), var(3))));

    let mut mono_context = Context::new();
    let mono = build().infer(&mut mono_context, &Flags::none());
    assert_eq!(mono, Ok(fun(var(2), var(0))));

    assert_ne!(poly, mono);
}
