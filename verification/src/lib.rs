//! A verified compiler front end for a small imperative scripting language.

pub mod error_handler;
pub mod lexer;
pub mod parser;
pub mod pretty_print;
pub mod symbol_table;
pub mod text;
