//! Compiles a small query-description language (`.table { col1 col2 }`)
//! into SQL `SELECT` statements: a scanner, a recursive-descent parser,
//! a closed set of syntax-tree nodes and a tree-walking evaluator.
pub mod ast;
pub mod error;
pub mod grammar;
pub mod lexer;
pub mod parser;
pub mod program;
