//! Builds the AST during parsing: node constructors and an ordered list of
//! the statements of the current level.

use vstd::prelude::*;
use crate::parser::ast::{
    BinOp, Command, Expr, SpecExpr, SpecStmt, Stmt, lemma_spec_stmts_push, spec_expr, spec_stmt,
    spec_stmts,
};

verus! {

/// Accumulates the statements of the current level, in order.
#[derive(Default)]
pub struct ASTBuilder {
    pub statements: Vec<Stmt>,
}

impl ASTBuilder {
    pub fn new() -> (r: ASTBuilder)
        ensures
            r.statements@ =~= Seq::<Stmt>::empty(),
    {
        ASTBuilder { statements: Vec::new() }
    }

    /// Appends an expression statement.
    pub fn push_expr(&mut self, expr: Expr)
        ensures
            spec_stmts(final(self).statements@) =~= spec_stmts(old(self).statements@).push(
                SpecStmt::Expr(spec_expr(expr)),
            ),
    {
        let ghost before = self.statements@;
        let ghost x = Stmt::ExprStmt(expr);
        self.statements.push(Stmt::ExprStmt(expr));
        proof {
            lemma_spec_stmts_push(before, x);
        }
    }

    /// Appends a command statement.
    pub fn push_command(&mut self, command: Command)
        ensures
            spec_stmts(final(self).statements@) =~= spec_stmts(old(self).statements@).push(
                SpecStmt::Command(command),
            ),
    {
        let ghost before = self.statements@;
        let ghost x = Stmt::Command(command);
        self.statements.push(Stmt::Command(command));
        proof {
            lemma_spec_stmts_push(before, x);
        }
    }

    /// Appends an `if` statement with both branches.
    pub fn push_if(&mut self, condition: Expr, then_branch: Vec<Stmt>, else_branch: Vec<Stmt>)
        ensures
            spec_stmts(final(self).statements@) =~= spec_stmts(old(self).statements@).push(
                SpecStmt::If {
                    condition: spec_expr(condition),
                    then_branch: spec_stmts(then_branch@),
                    else_branch: spec_stmts(else_branch@),
                },
            ),
    {
        let ghost before = self.statements@;
        let ghost x = Stmt::IfStmt { condition: condition, then_branch: then_branch, else_branch: else_branch };
        self.statements.push(Stmt::IfStmt { condition, then_branch, else_branch });
        proof {
            lemma_spec_stmts_push(before, x);
        }
    }

    /// Appends a `while` statement.
    pub fn push_while(&mut self, condition: Expr, body: Vec<Stmt>)
        ensures
            spec_stmts(final(self).statements@) =~= spec_stmts(old(self).statements@).push(
                SpecStmt::While { condition: spec_expr(condition), body: spec_stmts(body@) },
            ),
    {
        let ghost before = self.statements@;
        let ghost x = Stmt::WhileStmt { condition: condition, body: body };
        self.statements.push(Stmt::WhileStmt { condition, body });
        proof {
            lemma_spec_stmts_push(before, x);
        }
    }

    /// Appends a `for` statement.
    pub fn push_for(&mut self, init: Expr, condition: Expr, update: Expr, body: Vec<Stmt>)
        ensures
            spec_stmts(final(self).statements@) =~= spec_stmts(old(self).statements@).push(
                SpecStmt::For {
                    init: spec_expr(init),
                    condition: spec_expr(condition),
                    update: spec_expr(update),
                    body: spec_stmts(body@),
                },
            ),
    {
        let ghost before = self.statements@;
        let ghost x = Stmt::ForStmt { init: init, condition: condition, update: update, body: body };
        self.statements.push(Stmt::ForStmt { init, condition, update, body });
        proof {
            lemma_spec_stmts_push(before, x);
        }
    }

    /// An identifier expression node.
    pub fn make_identifier(&self, name: &str) -> (r: Expr)
        ensures
            spec_expr(r) == SpecExpr::Identifier(name@),
    {
        Expr::Identifier(name.to_owned())
    }

    /// A number literal node.
    pub fn make_number(&self, value: i32) -> (r: Expr)
        ensures
            spec_expr(r) == SpecExpr::Number(value as int),
    {
        Expr::Number(value)
    }

    /// A binary operation node owning both operands.
    pub fn make_binop(&self, left: Expr, op: BinOp, right: Expr) -> (r: Expr)
        ensures
            spec_expr(r) == (SpecExpr::BinaryOp {
                left: Box::new(spec_expr(left)),
                op: op,
                right: Box::new(spec_expr(right)),
            }),
    {
        Expr::BinaryOp { left: Box::new(left), op, right: Box::new(right) }
    }

    /// Consumes the builder and returns the statements built so far.
    pub fn build(self) -> (r: Vec<Stmt>)
        ensures
            r == self.statements,
    {
        self.statements
    }
}

} // verus!
