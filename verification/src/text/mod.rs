//! Characters and character sequences: classes, decimal numerals, trimming.

pub mod classes;
pub mod decimal;
pub mod strings;
