//! From a sequence of tokens to an expression tree.

pub mod ast;
pub mod grammar;
pub mod laws;
pub mod parselets;
pub mod parser;
