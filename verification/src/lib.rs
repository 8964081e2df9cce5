//! A verified interpreter for a small dynamically-typed scripting language.
//!
//! Source text is lexed into a token sequence, parsed into a syntax tree by an
//! operator-precedence pass for expressions and recursive descent for
//! statements, and evaluated against a stack of lexical scopes. Each stage is
//! specified by a mathematical model (`spec` functions over sequences and
//! maps), and the executable code is proved to return exactly what the model
//! prescribes.

pub mod ast;
pub mod context;
pub mod errors;
pub mod interp;
pub mod laws;
pub mod lexer;
pub mod numbers;
pub mod parser;
pub mod token;
