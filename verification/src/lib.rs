//! Pattern variables and substitutions for a term-rewriting engine.
//!
//! A [`Var`] names a slot in a rewrite pattern, either as an interned
//! symbol (`?x`) or as a raw number (`?#3`).  A [`Subst`] records the
//! bindings discovered for one successful match: an order-preserving
//! map from [`Var`] to an equivalence-class identifier [`Id`].

pub mod digits;
mod id;
pub mod store;
pub mod subst;
pub mod sym;
pub mod var;

pub use id::Id;
pub use subst::Subst;
pub use sym::Symbol;
pub use var::Var;
pub use var::VarExposed;
pub use var::VarKey;
pub use var::VarParseError;
