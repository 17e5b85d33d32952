//! A tree-walking interpreter for a small, C-like, dynamically typed
//! expression language: integers, booleans, strings, first-class functions
//! with lexical closures, vectors and keyed collections, `if`/`else`
//! expressions, blocks, `let`/`return`, and a few built-ins
//! (`len`, `print`, `exit`, `yeet`).
//!
//! The pipeline is: characters -> [`lexer::Lexer`] -> tokens ->
//! [`parser::Parser`] -> [`ast::Program`] -> [`eval::Eval`] -> values.
//! Each stage carries a mathematical model: the lexer is specified against
//! a character-level token function, the environment stack against a
//! sequence-of-frames model, and the evaluator against a big-step
//! specification interpreter with a recursion budget.

pub mod ast;
pub mod builtin;
pub mod error;
pub mod eval;
pub mod laws;
pub mod lexer;
pub mod object;
pub mod parser;
pub mod stack;
pub mod token;
