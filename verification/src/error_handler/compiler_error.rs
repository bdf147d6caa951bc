//! A single diagnostic record and its textual rendering.

use vstd::prelude::*;
use crate::error_handler::error_type::{ErrorType, error_type_name, spec_error_type_name};
use crate::text::{spec_dec, usize_to_string};

verus! {

/// One diagnostic: its class, a message, and the 1-based source position it
/// refers to.
#[derive(Debug, Clone)]
pub struct CompilerError {
    pub error_type: ErrorType,
    pub message: String,
    pub line: usize,
    pub column: usize,
}

/// The mathematical image of a diagnostic: the message as a character
/// sequence, the position as unbounded naturals.
pub struct SpecDiag {
    pub kind: ErrorType,
    pub message: Seq<char>,
    pub line: nat,
    pub column: nat,
}

impl View for CompilerError {
    type V = SpecDiag;

    open spec fn view(&self) -> SpecDiag {
        SpecDiag {
            kind: self.error_type,
            message: self.message@,
            line: self.line as nat,
            column: self.column as nat,
        }
    }
}

/// How a diagnostic renders:
/// `[<Kind> Error] <message> (Linha <line>, Coluna <column>)`.
/// The exact wording is a compatibility surface.
pub open spec fn spec_render_diag(d: SpecDiag) -> Seq<char> {
    "["@ + spec_error_type_name(d.kind) + " Error] "@ + d.message + " (Linha "@ + spec_dec(
        d.line,
    ) + ", Coluna "@ + spec_dec(d.column) + ")"@
}

impl CompilerError {
    pub fn new(error_type: ErrorType, message: &str, line: usize, column: usize) -> (r:
        CompilerError)
        ensures
            r@ == (SpecDiag {
                kind: error_type,
                message: message@,
                line: line as nat,
                column: column as nat,
            }),
    {
        CompilerError { error_type, message: message.to_owned(), line, column }
    }

    /// Renders this diagnostic as one line of text.
    pub fn render(&self) -> (r: String)
        ensures
            r@ == spec_render_diag(self@),
    {
        let mut out = String::new();
        out.append("[");
        out.append(error_type_name(self.error_type));
        out.append(" Error] ");
        out.append(self.message.as_str());
        out.append(" (Linha ");
        let line_digits = usize_to_string(self.line);
        out.append(line_digits.as_str());
        out.append(", Coluna ");
        let column_digits = usize_to_string(self.column);
        out.append(column_digits.as_str());
        out.append(")");
        out
    }
}

} // verus!
