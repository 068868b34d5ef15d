//! The expression language the engine infers types for.

use vstd::prelude::*;

verus! {

/// An expression: a variable occurrence, a single-parameter function literal,
/// a let-binding (optionally of a multi-parameter function, with `name`
/// invisible while its own value is inferred), or an application.
#[derive(Debug, PartialEq, Eq)]
pub enum Expr {
    Id(String),
    Fn(String, Box<Expr>),
    Let(String, Vec<String>, Box<Expr>, Box<Expr>),
    Call(Box<Expr>, Box<Expr>),
}

} // verus!
