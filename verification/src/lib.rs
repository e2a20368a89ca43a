//! Lexical and syntactic front end of a small scripting language: source text
//! becomes position-tagged tokens, and tokens become spanned syntax nodes.

pub mod span;
pub mod classify;
pub mod token;
pub mod cursor;
pub mod trivia;
pub mod lexer;
pub mod tiling;
pub mod ast;
pub mod parser;
