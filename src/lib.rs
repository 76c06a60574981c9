//! Front end of a small expression language: a position-tracking lexer, a
//! precedence-climbing parser and an AST that renders itself back to text.

pub mod ast;
pub mod lexer;
pub mod parser;
pub mod text;
pub mod token;
