//! Front end of a small imperative language: a pull-based lexer, a
//! recursive-descent parser with two levels of operator precedence, and the
//! syntax tree they produce.

pub mod ast;
pub mod lexer;
pub mod parser;
