//! Elaboration core of a small dependently-typed language: a term
//! representation with Pi/Sigma telescopes and a cumulative universe
//! hierarchy, capture-correct substitution, a weak (delta-only) evaluator,
//! a bidirectional type checker, and a metavariable unifier used for
//! overload resolution and placeholder inference.
//!
//! Earlier prototype calculi of the same project (an untyped lambda
//! calculus and two simply-typed checkers) are kept in their own modules.
pub mod ast;
pub mod term;
pub mod globals;
pub mod eval;
pub mod convert;
pub mod check;
pub mod unify;
pub mod untyped;
pub mod programs;
pub mod substitution;
pub mod typed;
pub mod expressions;
pub mod type_system;
pub mod readable;

pub use term::ElabError;
pub use term::Expr;
pub use term::Ident;
pub use globals::Globals;
pub use globals::Item;
pub use globals::type_check_all;
