//! An incremental evaluator for a small expression language.
//!
//! An expression applies a named operation to operands. An operand whose
//! value is not known yet, such as a symbol that is defined further on,
//! does not stop the evaluation: the expression becomes a node of a
//! dependency graph, and takes its value when the last of its operands has
//! arrived. The news of a value travels through the graph in one pass.
//!
//! `base` holds the engine: values, scopes, operations, the nodes of the
//! graph, and the session that owns scopes and nodes. `ir` reads programs:
//! it cuts a source text into tokens, reads elements, and builds their
//! expressions in a session.

pub mod base;
pub mod ir;
