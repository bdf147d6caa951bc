//! One symbol-table binding.

use vstd::prelude::*;
use crate::symbol_table::symbol_type::SymbolType;

verus! {

/// One binding: its name, its declared type, the scope depth it was
/// created at, and the source position of its declaration.
#[derive(Debug)]
pub struct Symbol {
    pub name: String,
    pub symbol_type: SymbolType,
    pub scope_level: usize,
    pub line: usize,
    pub column: usize,
}

/// The mathematical image of a binding.
#[verifier::ext_equal]
pub struct SpecSymbol {
    pub name: Seq<char>,
    pub symbol_type: SymbolType,
    pub scope_level: int,
    pub line: int,
    pub column: int,
}

impl View for Symbol {
    type V = SpecSymbol;

    open spec fn view(&self) -> SpecSymbol {
        SpecSymbol {
            name: self.name@,
            symbol_type: self.symbol_type,
            scope_level: self.scope_level as int,
            line: self.line as int,
            column: self.column as int,
        }
    }
}

impl Clone for Symbol {
    /// Cloning preserves the binding's mathematical image.
    fn clone(&self) -> (r: Self)
        ensures
            r@ == self@,
    {
        Symbol {
            name: self.name.clone(),
            symbol_type: self.symbol_type,
            scope_level: self.scope_level,
            line: self.line,
            column: self.column,
        }
    }
}

} // verus!
