//! The evaluation engine: values, scopes, operations and the expression graph.

pub mod context;
pub mod expression;
pub mod invariants;
pub mod operation;
pub mod session;
pub mod source;
pub mod symbol;
pub mod value;
