//! The parser's state and its top-level driver: one token sequence, one
//! forward-moving cursor, one diagnostic sink, and the AST being
//! assembled, all carried as one explicit value through the whole pass.

use vstd::prelude::*;
use crate::error_handler::compiler_error::SpecDiag;
use crate::error_handler::error_handler::ErrorHandler;
use crate::lexer::lexer::spec_toks_of;
use crate::lexer::token::{SpecTok, Token};
use crate::parser::ast::{Stmt, SpecStmt, spec_stmt, spec_stmts, lemma_spec_stmts_push};
use crate::parser::ast_builder::ASTBuilder;
use crate::parser::grammar::{sp_parse_program, sp_program_items, sp_parse_stmt,
    lemma_parse_stmt_bounds, lemma_skip_newlines_bounds, sp_progress};

verus! {

/// The recursive-descent parser: deterministic, single-threaded, no
/// backtracking beyond one-token lookahead.
pub struct Parser {
    pub tokens: Vec<(Token, String, usize)>,
    pub source: String,
    pub pos: usize,
    pub errors: ErrorHandler,
    pub builder: ASTBuilder,
}

impl Parser {
    /// The mathematical image of the token sequence.
    pub open spec fn toks(&self) -> Seq<SpecTok> {
        spec_toks_of(self.tokens@)
    }

    /// The source text the tokens came from, used to derive diagnostic
    /// positions.
    pub open spec fn src(&self) -> Seq<char> {
        self.source@
    }

    /// The source text leaves room for 1-based line/column counters in
    /// `usize`. The bound is forced by the machine, and every string that
    /// exists in memory satisfies it.
    pub open spec fn src_fits(&self) -> bool {
        self.source@.len() < usize::MAX
    }

    /// What every production leaves untouched: the token sequence, the
    /// source, the builder, and the warnings.
    pub open spec fn sp_ctx_same(a: &Parser, b: &Parser) -> bool {
        b.tokens == a.tokens && b.source == a.source && b.builder == a.builder
            && b.errors@.warnings == a.errors@.warnings
    }

    /// One eager pass over the token sequence: yields the ordered list of
    /// top-level statements and the diagnostic sink. The call always
    /// terminates and always returns a best-effort AST, even when
    /// diagnostics are non-empty.
    #[verifier::loop_isolation(false)]
    pub fn parse(self) -> (r: (Vec<Stmt>, ErrorHandler))
        requires
            self.src_fits(),
        ensures
            ({
                let out = sp_parse_program(self.toks(), self.src(), self.pos as int);
                spec_stmts(r.0@) == out.2 && r.1@.errors == self.errors@.errors + out.1
                    && r.1@.warnings == self.errors@.warnings
            }),
    {
        let mut this = self;
        let ghost toks = this.toks();
        let ghost src0 = this.src();
        let ghost pos0 = this.pos as int;
        let ghost e0 = this.errors@.errors;
        let ghost w0 = this.errors@.warnings;
        let ghost toks_vec = this.tokens;
        let ghost src_str = this.source;
        let ghost out = sp_program_items(toks, src0, pos0);
        let mut statements: Vec<Stmt> = Vec::new();
        while !this.is_at_end()
            invariant
                this.src_fits(),
                this.tokens == toks_vec,
                this.source == src_str,
                this.errors@.warnings == w0,
                ({
                    let cont = sp_program_items(toks, src0, this.pos as int);
                    out.0 == cont.0 && this.errors@.errors + cont.1 == e0 + out.1 && spec_stmts(
                        statements@,
                    ) + cont.2 == out.2
                }),
            decreases this.tokens.len() - this.pos,
        {
            let ghost pos_iter = this.pos as int;
            this.skip_newlines();
            proof {
                lemma_skip_newlines_bounds(toks, pos_iter);
            }
            if !this.is_at_end() {
                let ghost p0 = this.pos as int;
                let ghost st_out = sp_parse_stmt(toks, src0, p0);
                proof {
                    lemma_parse_stmt_bounds(toks, src0, p0);
                }
                let parsed = this.parse_stmt();
                if let Some(stmt) = parsed {
                    let ghost before_push = statements@;
                    let ghost x = stmt;
                    statements.push(stmt);
                    proof {
                        lemma_spec_stmts_push(before_push, x);
                        let cont_iter = sp_program_items(toks, src0, pos_iter);
                        let cont_now = sp_program_items(toks, src0, this.pos as int);
                        assert(sp_progress(pos_iter, st_out.0) == st_out.0);
                        assert(cont_iter.1 =~= st_out.1 + cont_now.1);
                        assert(cont_iter.2 =~= seq![spec_stmt(x)] + cont_now.2);
                        assert(spec_stmts(statements@) + cont_now.2 =~= spec_stmts(before_push)
                            + cont_iter.2);
                    }
                } else {
                    this.advance();
                    proof {
                        let cont_iter = sp_program_items(toks, src0, pos_iter);
                        let cont_now = sp_program_items(toks, src0, this.pos as int);
                        assert(sp_progress(pos_iter, this.pos as int) == this.pos as int);
                        assert(cont_iter.1 =~= st_out.1 + cont_now.1);
                    }
                }
            }
        }
        proof {
            assert(this.errors@.errors =~= e0 + out.1);
            assert(spec_stmts(statements@) + Seq::<SpecStmt>::empty() =~= spec_stmts(statements@));
            assert(spec_stmts(statements@) =~= out.2);
        }
        let Parser { errors, .. } = this;
        (statements, errors)
    }

    pub fn new(tokens: Vec<(Token, String, usize)>, source: &str) -> (r: Parser)
        ensures
            r.tokens == tokens,
            r.source@ == source@,
            r.pos == 0,
            r.errors@.errors =~= Seq::<SpecDiag>::empty(),
            r.errors@.warnings =~= Seq::<SpecDiag>::empty(),
    {
        Parser {
            tokens,
            source: source.to_owned(),
            pos: 0,
            errors: ErrorHandler::new(),
            builder: ASTBuilder::new(),
        }
    }
}

} // verus!
