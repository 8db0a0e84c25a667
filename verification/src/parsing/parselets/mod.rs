//! The strategies of the parser, one set for the token that begins an
//! expression and one for the token that continues it.

pub mod infix_parselet;
pub mod prefix_parselet;
