//! Diagnostic collection: the error/warning classes, one diagnostic record,
//! and the append-only sink the tokenizer's consumers and the parser share.

pub mod compiler_error;
pub mod error_handler;
pub mod error_type;
