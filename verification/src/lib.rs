//! A Hindley–Milner style type inference engine for a minimal expression
//! language with variables, unary function literals, let-bindings (with
//! optional parameter generalization) and application.
//!
//! Every executable function is specified against a mathematical model of the
//! algorithm: recursive spec functions over the expression tree, the scope
//! stack, and the substitution map. The inference pass threads a monotonically
//! increasing fresh-variable counter through a stack of lexical scopes and
//! consults a structural unifier at application sites.

pub mod ast;
pub mod context;
pub mod infer;
pub mod laws;
pub mod types;

pub use ast::Expr;
pub use context::Binding;
pub use context::Context;
pub use infer::Flags;
pub use types::Error;
pub use types::Scheme;
pub use types::Type;
pub use types::Unifier;
