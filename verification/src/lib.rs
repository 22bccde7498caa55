//! Front end of a small expression-oriented language: source text is turned
//! into a syntax tree, with diagnostics for the punctuation it had to assume,
//! next to the instruction set that such trees are later lowered to.

pub mod ast;
pub mod bytecode;
pub mod context;
pub mod cursor;
pub mod error;
pub mod grammar;
pub mod lexer;
pub mod outcome;
pub mod parser;
pub mod spacing;
pub mod suffix;
pub mod text;
