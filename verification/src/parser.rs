//! Syntactic analysis: the AST model, the grammar's mathematical
//! description, and the recursive-descent parser with panic-mode error
//! recovery.

pub mod ast;
pub mod ast_builder;
pub mod expressions;
pub mod grammar;
pub mod parser;
pub mod reparse;
pub mod statements;
pub mod utils;
