//! From a line of text to a sequence of tokens.

pub mod cursor;
pub mod laws;
pub mod lexer;
pub mod token;
