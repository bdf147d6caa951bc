//! Expression parsing: `expr := primary (('+' | '-') primary)*`, a single
//! precedence level, left-associative, over identifiers and integer
//! literals.

use vstd::prelude::*;
use crate::error_handler::compiler_error::SpecDiag;
use crate::lexer::token::{Token, token_name};
use crate::parser::ast::{BinOp, Expr, spec_expr};
use crate::parser::grammar::{sp_expr_loop, sp_parse_expr, sp_parse_primary};
use crate::parser::parser::Parser;
use crate::text::parse_i32;

verus! {

impl Parser {
    /// `primary := IDENTIFIER | NUMBER`. Always consumes one token (if any
    /// is left). A number whose text fails integer parsing still yields
    /// `Number(0)` plus a diagnostic, so the AST shape stays complete; any
    /// other token is reported and yields no node.
    pub fn parse_primary(&mut self) -> (r: Option<Expr>)
        requires
            old(self).src_fits(),
        ensures
            ({
                let out = sp_parse_primary(old(self).toks(), old(self).src(), old(self).pos as int);
                final(self).pos as int == out.0 && final(self).errors@.errors == old(
                    self,
                ).errors@.errors + out.1 && Parser::sp_ctx_same(old(self), final(self)) && (match (
                    r,
                    out.2,
                ) {
                    (Some(e), Some(se)) => spec_expr(e) == se,
                    (None, None) => true,
                    _ => false,
                })
            }),
    {
        let tok = self.advance();
        proof {
            assert(old(self).errors@.errors + Seq::<SpecDiag>::empty() =~= old(
                self,
            ).errors@.errors);
        }
        match tok.0 {
            Token::Identifier => Some(Expr::Identifier(tok.1)),
            Token::Number => {
                match parse_i32(tok.1.as_str()) {
                    Some(value) => Some(Expr::Number(value)),
                    None => {
                        self.error("Invalid number literal");
                        Some(Expr::Number(0))
                    },
                }
            },
            _ => {
                let mut msg = String::new();
                msg.append("Unexpected token '");
                msg.append(token_name(tok.0));
                msg.append("' in expression (found '");
                msg.append(tok.1.as_str());
                msg.append("')");
                self.error(msg.as_str());
                None
            },
        }
    }

    /// `expr := primary (('+' | '-') primary)*`: folds operands onto the
    /// left, so `a + b - c` parses as `(a + b) - c`.
    #[verifier::loop_isolation(false)]
    pub fn parse_expr(&mut self) -> (r: Option<Expr>)
        requires
            old(self).src_fits(),
        ensures
            ({
                let out = sp_parse_expr(old(self).toks(), old(self).src(), old(self).pos as int);
                final(self).pos as int == out.0 && final(self).errors@.errors == old(
                    self,
                ).errors@.errors + out.1 && Parser::sp_ctx_same(old(self), final(self)) && (match (
                    r,
                    out.2,
                ) {
                    (Some(e), Some(se)) => spec_expr(e) == se,
                    (None, None) => true,
                    _ => false,
                })
            }),
    {
        let ghost out = sp_parse_expr(old(self).toks(), old(self).src(), old(self).pos as int);
        let first = self.parse_primary();
        let mut expr = match first {
            Some(e) => e,
            None => {
                return None;
            },
        };
        let ghost errors_after_first = self.errors@.errors;
        proof {
            assert(errors_after_first + sp_expr_loop(
                self.toks(),
                self.src(),
                self.pos as int,
                spec_expr(expr),
            ).1 =~= old(self).errors@.errors + out.1);
        }
        while self.check(Token::Plus) || self.check(Token::Minus)
            invariant
                self.src_fits(),
                Parser::sp_ctx_same(old(self), self),
                ({
                    let cont = sp_expr_loop(self.toks(), self.src(), self.pos as int, spec_expr(expr));
                    out.0 == cont.0 && out.2 == cont.2 && self.errors@.errors + cont.1 == old(
                        self,
                    ).errors@.errors + out.1
                }),
            decreases self.tokens.len() - self.pos,
        {
            let ghost pos_iter = self.pos as int;
            let ghost acc_iter = spec_expr(expr);
            let op = if self.check(Token::Plus) {
                self.advance();
                BinOp::Add
            } else {
                self.advance();
                BinOp::Sub
            };
            let right = match self.parse_primary() {
                Some(rhs) => rhs,
                None => {
                    return None;
                },
            };
            let prev = expr;
            expr = Expr::BinaryOp { left: Box::new(prev), op, right: Box::new(right) };
            proof {
                let step = sp_parse_primary(self.toks(), self.src(), pos_iter + 1);
                let cont_before = sp_expr_loop(self.toks(), self.src(), pos_iter, acc_iter);
                let cont_now = sp_expr_loop(self.toks(), self.src(), self.pos as int, spec_expr(expr));
                assert(cont_before.0 == cont_now.0);
                assert(cont_before.2 == cont_now.2);
                assert(cont_before.1 =~= step.1 + cont_now.1);
            }
        }
        Some(expr)
    }
}

} // verus!
