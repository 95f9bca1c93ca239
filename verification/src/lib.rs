//! Front end of a small expression-oriented scripting language: a tokenizer,
//! an operator-precedence ("Pratt") expression parser driven by a binding-power
//! table, a statement/block parser, and a lexical-scope resolver that binds
//! identifier occurrences to declaration slots.

pub mod ast;
pub mod context;
pub mod laws;
pub mod lexer;
pub mod ops;
pub mod parser;
pub mod pratt;
pub mod printer;
pub mod token;
