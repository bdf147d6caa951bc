//! Lexical analysis: the token model and the tokenizer.

pub mod lexer;
pub mod token;
