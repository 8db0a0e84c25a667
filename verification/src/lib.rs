//! The front end of a small line-oriented command language: a lexer that turns
//! a line of text into tokens, and a precedence-climbing parser that turns the
//! tokens into an expression tree.

pub mod lexing;
pub mod parsing;
pub mod text;
