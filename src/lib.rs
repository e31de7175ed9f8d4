//! A tree-walking interpreter for a small expression language: a lexer, a
//! precedence-climbing parser that builds an abstract syntax tree, and an
//! evaluator with lexically scoped environments and closures.
pub mod token;
pub mod lexer;
pub mod ast;
pub mod parser;
pub mod object;
pub mod env;
pub mod eval;
pub mod reparse;
