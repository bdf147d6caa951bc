//! The types a symbol can be declared with.

use vstd::prelude::*;

verus! {

/// The declared type of a binding.
#[derive(Debug, Clone, Copy, PartialEq, Eq, Structural)]
pub enum SymbolType {
    Integer,
    Boolean,
}

/// The name of a symbol type as it appears in a rendered table.
pub open spec fn spec_symbol_type_name(t: SymbolType) -> Seq<char> {
    match t {
        SymbolType::Integer => "Integer"@,
        SymbolType::Boolean => "Boolean"@,
    }
}

/// Executable counterpart of [`spec_symbol_type_name`].
pub fn symbol_type_name(t: SymbolType) -> (r: &'static str)
    ensures
        r@ == spec_symbol_type_name(t),
{
    match t {
        SymbolType::Integer => "Integer",
        SymbolType::Boolean => "Boolean",
    }
}

} // verus!
