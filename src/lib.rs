//! Scanning and parsing of expressions in a small scripting language: source
//! text becomes tokens, and tokens become an expression tree, each stage
//! verified against a model of what it should produce.

pub mod expr;
pub mod grammar;
pub mod lexical;
pub mod lox;
pub mod parser;
pub mod scanner;
pub mod text;
pub mod token;
pub mod tokentype;
