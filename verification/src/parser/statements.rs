//! Statement parsing: dispatch on the current token kind, the three
//! control structures with their delimiters, blocks with tolerant closing,
//! and the command keywords.

use vstd::prelude::*;
use crate::error_handler::compiler_error::SpecDiag;
use crate::lexer::token::Token;
use crate::parser::ast::{
    ActionCommand, Command, MoveCommand, SpecStmt, Stmt, lemma_spec_stmts_push, spec_stmt,
    spec_stmts,
};
use crate::parser::grammar::{
    lemma_parse_block_bounds, lemma_parse_expr_bounds, lemma_parse_stmt_bounds,
    lemma_skip_newlines_bounds, rem, sp_block_items, sp_parse_block, sp_parse_command,
    sp_parse_for, sp_parse_if, sp_parse_stmt, sp_parse_while, sp_progress,
};
use crate::parser::parser::Parser;

verus! {

impl Parser {
    /// `stmt := command | ifStmt | whileStmt | forStmt | exprStmt`,
    /// dispatched on the current token kind. If the fallback expression
    /// statement also fails, an "Expected statement" diagnostic is
    /// recorded and one token is consumed: the forward-progress guarantee
    /// of panic-mode recovery.
    pub fn parse_stmt(&mut self) -> (r: Option<Stmt>)
        requires
            old(self).src_fits(),
        ensures
            ({
                let out = sp_parse_stmt(old(self).toks(), old(self).src(), old(self).pos as int);
                final(self).pos as int == out.0 && final(self).errors@.errors == old(
                    self,
                ).errors@.errors + out.1 && Parser::sp_ctx_same(old(self), final(self)) && (match (
                    r,
                    out.2,
                ) {
                    (Some(st), Some(ss)) => spec_stmt(st) == ss,
                    (None, None) => true,
                    _ => false,
                })
            }),
        decreases rem(old(self).toks(), old(self).pos as int), 1int,
    {
        match self.peek() {
            Token::MoveUp | Token::MoveDown | Token::MoveLeft | Token::MoveRight | Token::Jump
                | Token::Attack | Token::Defend => self.parse_command(),
            Token::If => self.parse_if(),
            Token::While => self.parse_while(),
            Token::For => self.parse_for(),
            _ => {
                let attempted = self.parse_expr();
                if let Some(expr) = attempted {
                    Some(Stmt::ExprStmt(expr))
                } else {
                    self.error("Expected statement");
                    self.advance();
                    proof {
                        let out = sp_parse_stmt(
                            old(self).toks(),
                            old(self).src(),
                            old(self).pos as int,
                        );
                        assert(self.errors@.errors =~= old(self).errors@.errors + out.1);
                    }
                    None
                }
            },
        }
    }

    /// `ifStmt := 'if' '(' expr ')' block 'else' block`; the `else`
    /// branch is mandatory, and its absence is reported as a diagnostic
    /// rather than tolerated.
    pub fn parse_if(&mut self) -> (r: Option<Stmt>)
        requires
            old(self).src_fits(),
        ensures
            ({
                let out = sp_parse_if(old(self).toks(), old(self).src(), old(self).pos as int);
                final(self).pos as int == out.0 && final(self).errors@.errors == old(
                    self,
                ).errors@.errors + out.1 && Parser::sp_ctx_same(old(self), final(self)) && (match (
                    r,
                    out.2,
                ) {
                    (Some(st), Some(ss)) => spec_stmt(st) == ss,
                    (None, None) => true,
                    _ => false,
                })
            }),
        decreases rem(old(self).toks(), old(self).pos as int), 0int,
    {
        let ghost toks = old(self).toks();
        let ghost src0 = old(self).src();
        let ghost pos0 = old(self).pos as int;
        let ghost e0 = old(self).errors@.errors;
        self.consume(Token::If, "Expected 'if'")?;
        self.consume(Token::LParen, "Expected '(' after if")?;
        let ghost before_expr = self.pos as int;
        let condition = match self.parse_expr() {
            Some(c) => c,
            None => {
                return None;
            },
        };
        self.consume(Token::RParen, "Expected ')' after if condition")?;
        proof {
            lemma_parse_expr_bounds(toks, src0, before_expr);
            assert(sp_progress(pos0, self.pos as int) == self.pos as int);
        }
        let ghost p_then = self.pos as int;
        let then_branch = self.parse_block();
        self.consume(Token::Else, "Expected 'else' after if block")?;
        proof {
            lemma_parse_block_bounds(toks, src0, p_then);
            assert(sp_progress(pos0, self.pos as int) == self.pos as int);
        }
        let else_branch = self.parse_block();
        proof {
            let out = sp_parse_if(toks, src0, pos0);
            assert(self.errors@.errors =~= e0 + out.1);
        }
        Some(Stmt::IfStmt { condition, then_branch, else_branch })
    }

    /// `whileStmt := 'while' '(' expr ')' block`.
    pub fn parse_while(&mut self) -> (r: Option<Stmt>)
        requires
            old(self).src_fits(),
        ensures
            ({
                let out = sp_parse_while(old(self).toks(), old(self).src(), old(self).pos as int);
                final(self).pos as int == out.0 && final(self).errors@.errors == old(
                    self,
                ).errors@.errors + out.1 && Parser::sp_ctx_same(old(self), final(self)) && (match (
                    r,
                    out.2,
                ) {
                    (Some(st), Some(ss)) => spec_stmt(st) == ss,
                    (None, None) => true,
                    _ => false,
                })
            }),
        decreases rem(old(self).toks(), old(self).pos as int), 0int,
    {
        let ghost toks = old(self).toks();
        let ghost src0 = old(self).src();
        let ghost pos0 = old(self).pos as int;
        let ghost e0 = old(self).errors@.errors;
        self.consume(Token::While, "Expected 'while'")?;
        self.consume(Token::LParen, "Expected '(' after while")?;
        let ghost before_expr = self.pos as int;
        let condition = match self.parse_expr() {
            Some(c) => c,
            None => {
                return None;
            },
        };
        self.consume(Token::RParen, "Expected ')' after while condition")?;
        proof {
            lemma_parse_expr_bounds(toks, src0, before_expr);
            assert(sp_progress(pos0, self.pos as int) == self.pos as int);
        }
        let body = self.parse_block();
        proof {
            let out = sp_parse_while(toks, src0, pos0);
            assert(self.errors@.errors =~= e0 + out.1);
        }
        Some(Stmt::WhileStmt { condition, body })
    }

    /// `forStmt := 'for' '(' expr ';' expr ';' expr ')' block`.
    pub fn parse_for(&mut self) -> (r: Option<Stmt>)
        requires
            old(self).src_fits(),
        ensures
            ({
                let out = sp_parse_for(old(self).toks(), old(self).src(), old(self).pos as int);
                final(self).pos as int == out.0 && final(self).errors@.errors == old(
                    self,
                ).errors@.errors + out.1 && Parser::sp_ctx_same(old(self), final(self)) && (match (
                    r,
                    out.2,
                ) {
                    (Some(st), Some(ss)) => spec_stmt(st) == ss,
                    (None, None) => true,
                    _ => false,
                })
            }),
        decreases rem(old(self).toks(), old(self).pos as int), 0int,
    {
        let ghost toks = old(self).toks();
        let ghost src0 = old(self).src();
        let ghost pos0 = old(self).pos as int;
        let ghost e0 = old(self).errors@.errors;
        self.consume(Token::For, "Expected 'for'")?;
        self.consume(Token::LParen, "Expected '(' after for")?;
        let ghost p_init = self.pos as int;
        let init = match self.parse_expr() {
            Some(e) => e,
            None => {
                return None;
            },
        };
        self.consume(Token::Semicolon, "Expected ';' after initialization")?;
        let ghost p_cond = self.pos as int;
        let condition = match self.parse_expr() {
            Some(e) => e,
            None => {
                proof {
                    let out = sp_parse_for(toks, src0, pos0);
                    assert(self.errors@.errors =~= e0 + out.1);
                }
                return None;
            },
        };
        self.consume(Token::Semicolon, "Expected ';' after condition")?;
        let ghost p_update = self.pos as int;
        let update = match self.parse_expr() {
            Some(e) => e,
            None => {
                proof {
                    let out = sp_parse_for(toks, src0, pos0);
                    assert(self.errors@.errors =~= e0 + out.1);
                }
                return None;
            },
        };
        self.consume(Token::RParen, "Expected ')' after for clauses")?;
        proof {
            lemma_parse_expr_bounds(toks, src0, p_init);
            lemma_parse_expr_bounds(toks, src0, p_cond);
            lemma_parse_expr_bounds(toks, src0, p_update);
            assert(sp_progress(pos0, self.pos as int) == self.pos as int);
        }
        let body = self.parse_block();
        proof {
            let out = sp_parse_for(toks, src0, pos0);
            assert(self.errors@.errors =~= e0 + out.1);
        }
        Some(Stmt::ForStmt { init, condition, update, body })
    }

    /// `block := '{' (NEWLINE* stmt)* NEWLINE* '}'`. A missing or
    /// never-appearing closing brace is reported rather than looped on:
    /// collection stops at end of input.
    #[verifier::loop_isolation(false)]
    pub fn parse_block(&mut self) -> (r: Vec<Stmt>)
        requires
            old(self).src_fits(),
        ensures
            ({
                let out = sp_parse_block(old(self).toks(), old(self).src(), old(self).pos as int);
                final(self).pos as int == out.0 && final(self).errors@.errors == old(
                    self,
                ).errors@.errors + out.1 && Parser::sp_ctx_same(old(self), final(self))
                    && spec_stmts(r@) == out.2
            }),
        decreases rem(old(self).toks(), old(self).pos as int), 3int,
    {
        let ghost toks = old(self).toks();
        let ghost src0 = old(self).src();
        let ghost pos0 = old(self).pos as int;
        let ghost e0 = old(self).errors@.errors;
        let mut statements: Vec<Stmt> = Vec::new();
        if self.consume(Token::LBrace, "Expected '{' to start block").is_none() {
            proof {
                let out = sp_parse_block(toks, src0, pos0);
                assert(spec_stmts(statements@) =~= out.2);
            }
            return statements;
        }
        let ghost items = sp_block_items(toks, src0, self.pos as int);
        let ghost e_open = self.errors@.errors;
        while !self.check(Token::RBrace) && !self.is_at_end()
            invariant
                self.src_fits(),
                Parser::sp_ctx_same(old(self), self),
                pos0 < self.pos as int,
                ({
                    let cont = sp_block_items(toks, src0, self.pos as int);
                    items.0 == cont.0 && self.errors@.errors + cont.1 == e_open + items.1
                        && spec_stmts(statements@) + cont.2 == items.2
                }),
            decreases self.tokens.len() - self.pos,
        {
            let ghost pos_iter = self.pos as int;
            self.skip_newlines();
            proof {
                lemma_skip_newlines_bounds(toks, pos_iter);
            }
            if !self.check(Token::RBrace) {
                let ghost p0 = self.pos as int;
                let ghost st_out = sp_parse_stmt(toks, src0, p0);
                proof {
                    lemma_parse_stmt_bounds(toks, src0, p0);
                }
                let parsed = self.parse_stmt();
                if let Some(stmt) = parsed {
                    let ghost before_push = statements@;
                    let ghost x = stmt;
                    statements.push(stmt);
                    proof {
                        lemma_spec_stmts_push(before_push, x);
                        let cont_iter = sp_block_items(toks, src0, pos_iter);
                        let cont_now = sp_block_items(toks, src0, self.pos as int);
                        assert(sp_progress(pos_iter, st_out.0) == st_out.0);
                        assert(cont_iter.1 =~= st_out.1 + cont_now.1);
                        assert(cont_iter.2 =~= seq![spec_stmt(x)] + cont_now.2);
                        assert(spec_stmts(statements@) + cont_now.2 =~= spec_stmts(before_push)
                            + cont_iter.2);
                    }
                } else {
                    self.advance();
                    proof {
                        let cont_iter = sp_block_items(toks, src0, pos_iter);
                        let cont_now = sp_block_items(toks, src0, self.pos as int);
                        assert(sp_progress(pos_iter, self.pos as int) == self.pos as int);
                        assert(cont_iter.1 =~= st_out.1 + cont_now.1);
                    }
                }
            }
        }
        self.consume(Token::RBrace, "Expected '}' to close block");
        proof {
            let out = sp_parse_block(toks, src0, pos0);
            assert(self.errors@.errors =~= e0 + out.1);
            assert(spec_stmts(statements@) + Seq::<SpecStmt>::empty() =~= spec_stmts(
                statements@,
            ));
        }
        statements
    }

    /// `command`: one of the seven command keywords becomes a `Command`
    /// node; anything else is reported as an invalid command.
    pub fn parse_command(&mut self) -> (r: Option<Stmt>)
        requires
            old(self).src_fits(),
        ensures
            ({
                let out = sp_parse_command(old(self).toks(), old(self).src(), old(self).pos as int);
                final(self).pos as int == out.0 && final(self).errors@.errors == old(
                    self,
                ).errors@.errors + out.1 && Parser::sp_ctx_same(old(self), final(self)) && (match (
                    r,
                    out.2,
                ) {
                    (Some(st), Some(ss)) => spec_stmt(st) == ss,
                    (None, None) => true,
                    _ => false,
                })
            }),
    {
        let tok = self.advance();
        proof {
            assert(old(self).errors@.errors + Seq::<SpecDiag>::empty() =~= old(
                self,
            ).errors@.errors);
        }
        let stmt = match tok.0 {
            Token::MoveUp => Stmt::Command(Command::Move(MoveCommand::MoveUp)),
            Token::MoveDown => Stmt::Command(Command::Move(MoveCommand::MoveDown)),
            Token::MoveLeft => Stmt::Command(Command::Move(MoveCommand::MoveLeft)),
            Token::MoveRight => Stmt::Command(Command::Move(MoveCommand::MoveRight)),
            Token::Jump => Stmt::Command(Command::Action(ActionCommand::Jump)),
            Token::Attack => Stmt::Command(Command::Action(ActionCommand::Attack)),
            Token::Defend => Stmt::Command(Command::Action(ActionCommand::Defend)),
            _ => {
                self.error("Invalid command");
                return None;
            },
        };
        Some(stmt)
    }
}

} // verus!
