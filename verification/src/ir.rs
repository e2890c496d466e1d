//! Reading programs: characters, tokens, elements, and the expressions built of them.

pub mod charclass;
pub mod expression;
pub mod lexer;
pub mod parser;
