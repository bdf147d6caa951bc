//! The symbol table: scope-stack bookkeeping over first-write-wins
//! bindings.

pub mod symbol;
pub mod symbol_table;
pub mod symbol_type;
