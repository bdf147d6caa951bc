//! The append-only diagnostic sink shared by the front end's passes.

use vstd::prelude::*;
use crate::error_handler::compiler_error::{SpecDiag, spec_render_diag};

pub use crate::error_handler::compiler_error::CompilerError;
pub use crate::error_handler::error_type::ErrorType;

verus! {

/// Ordered collections of errors and warnings, appended to in encounter
/// order and never deduplicated.
#[derive(Default)]
pub struct ErrorHandler {
    errors: Vec<CompilerError>,
    warnings: Vec<CompilerError>,
}

/// The mathematical image of the sink: the two diagnostic sequences.
pub struct SpecErrorLog {
    pub errors: Seq<SpecDiag>,
    pub warnings: Seq<SpecDiag>,
}

impl View for ErrorHandler {
    type V = SpecErrorLog;

    closed spec fn view(&self) -> SpecErrorLog {
        SpecErrorLog {
            errors: self.errors@.map(|i: int, e: CompilerError| e@),
            warnings: self.warnings@.map(|i: int, e: CompilerError| e@),
        }
    }
}

/// The rendering of a list of diagnostics, one per line.
pub open spec fn spec_render_diag_lines(ds: Seq<SpecDiag>) -> Seq<char>
    decreases ds.len(),
{
    if ds.len() == 0 {
        Seq::<char>::empty()
    } else {
        spec_render_diag(ds[0]) + "\n"@ + spec_render_diag_lines(ds.drop_first())
    }
}

/// The full report: a header and all errors (or a no-errors line), then a
/// header and all warnings if there are any.
pub open spec fn spec_render_report(log: SpecErrorLog) -> Seq<char> {
    (if log.errors.len() > 0 {
        "Erros encontrados:\n"@ + spec_render_diag_lines(log.errors)
    } else {
        "Nenhum erro encontrado.\n"@
    }) + (if log.warnings.len() > 0 {
        "Warnings:\n"@ + spec_render_diag_lines(log.warnings)
    } else {
        Seq::<char>::empty()
    })
}

impl ErrorHandler {
    pub fn new() -> (r: ErrorHandler)
        ensures
            r@.errors =~= Seq::<SpecDiag>::empty(),
            r@.warnings =~= Seq::<SpecDiag>::empty(),
    {
        ErrorHandler { errors: Vec::new(), warnings: Vec::new() }
    }

    /// Appends one error; everything else is unchanged.
    pub fn add_error(
        &mut self,
        error_type: ErrorType,
        message: &str,
        line: usize,
        column: usize,
    )
        ensures
            final(self)@.errors =~= old(self)@.errors.push(
                SpecDiag {
                    kind: error_type,
                    message: message@,
                    line: line as nat,
                    column: column as nat,
                },
            ),
            final(self)@.warnings =~= old(self)@.warnings,
    {
        self.errors.push(CompilerError::new(error_type, message, line, column));
    }

    /// Appends one warning, always of the `Semantic` class; errors are
    /// unchanged.
    pub fn add_warning(&mut self, message: &str, line: usize, column: usize)
        ensures
            final(self)@.warnings =~= old(self)@.warnings.push(
                SpecDiag {
                    kind: ErrorType::Semantic,
                    message: message@,
                    line: line as nat,
                    column: column as nat,
                },
            ),
            final(self)@.errors =~= old(self)@.errors,
    {
        self.warnings.push(CompilerError::new(ErrorType::Semantic, message, line, column));
    }

    /// True exactly when at least one error has been recorded; warnings never
    /// affect this predicate.
    pub fn has_errors(&self) -> (r: bool)
        ensures
            r == (self@.errors.len() > 0),
    {
        self.errors.len() > 0
    }

    /// Renders all errors then all warnings; total even when both
    /// collections are empty.
    pub fn report(&self) -> (r: String)
        ensures
            r@ == spec_render_report(self@),
    {
        let mut out = String::new();
        if self.errors.len() > 0 {
            out.append("Erros encontrados:\n");
            let error_lines = render_lines(&self.errors);
            out.append(error_lines.as_str());
        } else {
            out.append("Nenhum erro encontrado.\n");
        }
        if self.warnings.len() > 0 {
            out.append("Warnings:\n");
            let warning_lines = render_lines(&self.warnings);
            out.append(warning_lines.as_str());
        }
        out
    }

    /// Resets both collections to empty.
    pub fn clear(&mut self)
        ensures
            final(self)@.errors =~= Seq::<SpecDiag>::empty(),
            final(self)@.warnings =~= Seq::<SpecDiag>::empty(),
    {
        self.errors.clear();
        self.warnings.clear();
    }
}

/// Renders each diagnostic on its own line.
fn render_lines(ds: &Vec<CompilerError>) -> (r: String)
    ensures
        r@ == spec_render_diag_lines(ds@.map(|i: int, e: CompilerError| e@)),
{
    let ghost all = ds@.map(|i: int, e: CompilerError| e@);
    let mut out = String::new();
    let mut i: usize = 0;
    proof {
        assert(all.skip(0) =~= all);
        assert(out@ + spec_render_diag_lines(all) =~= spec_render_diag_lines(all));
    }
    while i < ds.len()
        invariant
            i <= ds.len(),
            all == ds@.map(|i: int, e: CompilerError| e@),
            out@ + spec_render_diag_lines(all.skip(i as int)) == spec_render_diag_lines(all),
        decreases ds.len() - i,
    {
        proof {
            assert(all.skip(i as int).drop_first() =~= all.skip(i as int + 1));
            assert(all.skip(i as int)[0] == ds@[i as int]@);
        }
        let line = ds[i].render();
        out.append(line.as_str());
        out.append("\n");
        i += 1;
    }
    proof {
        assert(all.skip(ds@.len() as int) =~= Seq::<SpecDiag>::empty());
        assert(out@ + Seq::<char>::empty() =~= out@);
    }
    out
}

} // verus!
