//! The taxonomy of diagnostics the front end can raise.

use vstd::prelude::*;

verus! {

/// The class of a diagnostic: malformed lexemes, grammar violations, or
/// symbol-table-level issues.
#[derive(Debug, Clone, Copy, PartialEq, Eq, Structural)]
pub enum ErrorType {
    Lexical,
    Syntactic,
    Semantic,
}

/// The name of an error class as it appears in a rendered diagnostic.
pub open spec fn spec_error_type_name(t: ErrorType) -> Seq<char> {
    match t {
        ErrorType::Lexical => "Lexical"@,
        ErrorType::Syntactic => "Syntactic"@,
        ErrorType::Semantic => "Semantic"@,
    }
}

/// Executable counterpart of [`spec_error_type_name`].
pub fn error_type_name(t: ErrorType) -> (r: &'static str)
    ensures
        r@ == spec_error_type_name(t),
{
    match t {
        ErrorType::Lexical => "Lexical",
        ErrorType::Syntactic => "Syntactic",
        ErrorType::Semantic => "Semantic",
    }
}

} // verus!
