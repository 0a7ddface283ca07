//! Unification-based type inference for a small functional language.
//!
//! The language has numbers, variables, lambda abstraction, application and
//! non-recursive, monomorphic `let`.

pub mod ast;
pub mod environment;
pub mod infer;
pub mod numeric;
pub mod types;
