//! The parser's cursor primitives: one-token lookahead, saturating
//! advancement, expected-token consumption, and diagnostic recording with
//! line/column derivation.

use vstd::prelude::*;
use crate::error_handler::compiler_error::SpecDiag;
use crate::error_handler::error_type::ErrorType;
use crate::lexer::token::Token;
use crate::parser::grammar::{
    sp_advance_pos, sp_consume, sp_cur_offset, sp_cur_text, sp_error, sp_line_col,
    sp_line_col_from, sp_peek, sp_skip_newlines,
};
use crate::parser::parser::Parser;

verus! {

impl Parser {
    /// Skips the run of newline tokens under the cursor.
    #[verifier::loop_isolation(false)]
    pub fn skip_newlines(&mut self)
        ensures
            final(self).pos as int == sp_skip_newlines(old(self).toks(), old(self).pos as int),
            Parser::sp_ctx_same(old(self), final(self)),
            final(self).errors == old(self).errors,
    {
        while self.check(Token::Newline)
            invariant
                sp_skip_newlines(old(self).toks(), old(self).pos as int) == sp_skip_newlines(
                    self.toks(),
                    self.pos as int,
                ),
                Parser::sp_ctx_same(old(self), self),
                self.errors == old(self).errors,
            decreases self.tokens.len() - self.pos,
        {
            self.advance();
        }
    }

    /// The kind of the token under the cursor, or `Error` past the end:
    /// all consumers treat "cursor past last element" as end of input.
    pub fn peek(&self) -> (r: Token)
        ensures
            r == sp_peek(self.toks(), self.pos as int),
    {
        if self.pos < self.tokens.len() {
            self.tokens[self.pos].0
        } else {
            Token::Error
        }
    }

    /// Returns the token under the cursor (or an empty `Error` triple past
    /// the end) and moves the cursor forward, never past the end.
    pub fn advance(&mut self) -> (r: (Token, String, usize))
        ensures
            final(self).pos as int == sp_advance_pos(old(self).toks(), old(self).pos as int),
            Parser::sp_ctx_same(old(self), final(self)),
            final(self).errors == old(self).errors,
            r.0 == sp_peek(old(self).toks(), old(self).pos as int),
            r.1@ == sp_cur_text(old(self).toks(), old(self).pos as int),
            r.2 as int == sp_cur_offset(old(self).toks(), old(self).pos as int),
    {
        if self.pos < self.tokens.len() {
            let current = (
                self.tokens[self.pos].0,
                self.tokens[self.pos].1.clone(),
                self.tokens[self.pos].2,
            );
            self.pos = self.pos + 1;
            current
        } else {
            (Token::Error, String::new(), 0)
        }
    }

    /// Whether the token under the cursor has the given kind.
    pub fn check(&self, tok: Token) -> (r: bool)
        ensures
            r == (sp_peek(self.toks(), self.pos as int) == tok),
    {
        self.peek() == tok
    }

    /// Whether the cursor is past the last token.
    pub fn is_at_end(&self) -> (r: bool)
        ensures
            r == (self.pos as int >= self.toks().len()),
    {
        self.pos >= self.tokens.len()
    }

    /// Consumes the expected token, or records a diagnostic naming what
    /// was expected and what was found, without consuming anything.
    pub fn consume(&mut self, expected: Token, msg: &str) -> (r: Option<()>)
        requires
            old(self).src_fits(),
        ensures
            ({
                let c = sp_consume(
                    old(self).toks(),
                    old(self).src(),
                    old(self).pos as int,
                    expected,
                    msg@,
                );
                final(self).pos as int == c.0 && final(self).errors@.errors == old(
                    self,
                ).errors@.errors + c.1 && (r is Some) == c.2 && Parser::sp_ctx_same(
                    old(self),
                    final(self),
                )
            }),
    {
        if self.check(expected) {
            self.advance();
            proof {
                assert(old(self).errors@.errors + Seq::<SpecDiag>::empty() =~= old(
                    self,
                ).errors@.errors);
            }
            Some(())
        } else {
            self.error(msg);
            None
        }
    }

    /// Records a syntactic diagnostic at the token under the cursor, with
    /// the message extended by the text actually found and the position
    /// derived from the token's offset.
    pub fn error(&mut self, msg: &str)
        requires
            old(self).src_fits(),
        ensures
            final(self).errors@.errors == old(self).errors@.errors + seq![
                sp_error(old(self).toks(), old(self).src(), old(self).pos as int, msg@),
            ],
            final(self).pos == old(self).pos,
            Parser::sp_ctx_same(old(self), final(self)),
    {
        let (text, offset): (String, usize) = if self.pos < self.tokens.len() {
            (self.tokens[self.pos].1.clone(), self.tokens[self.pos].2)
        } else {
            (String::new(), 0)
        };
        let lc = offset_to_line_col(self.source.as_str(), offset);
        let mut full = String::new();
        full.append(msg);
        full.append(" (found '");
        full.append(text.as_str());
        full.append("')");
        let ghost before = self.errors@.errors;
        self.errors.add_error(ErrorType::Syntactic, full.as_str(), lc.0, lc.1);
        proof {
            let d = sp_error(old(self).toks(), old(self).src(), old(self).pos as int, msg@);
            assert(self.errors@.errors =~= before.push(d));
            assert(before.push(d) =~= before + seq![d]);
        }
    }
}

/// Derives the 1-based line and column of character position `offset` in
/// `src`: one linear scan counting newline characters. The length bound is
/// forced by the machine: the 1-based counters must fit in `usize`, and
/// every string that exists in memory satisfies it.
#[verifier::loop_isolation(false)]
pub fn offset_to_line_col(src: &str, offset: usize) -> (r: (usize, usize))
    requires
        src@.len() < usize::MAX,
    ensures
        (r.0 as int, r.1 as int) == sp_line_col(src@, offset as int),
{
    let n = src.unicode_len();
    let mut line: usize = 1;
    let mut col: usize = 1;
    let mut i: usize = 0;
    while i < n && i != offset
        invariant
            i <= n,
            1 <= line <= i + 1,
            1 <= col <= i + 1,
            sp_line_col_from(src@, i as int, offset as int, line as int, col as int)
                == sp_line_col(src@, offset as int),
        decreases n - i,
    {
        let c = src.get_char(i);
        if c == '\n' {
            line = line + 1;
            col = 1;
        } else {
            col = col + 1;
        }
        i += 1;
    }
    (line, col)
}

} // verus!
