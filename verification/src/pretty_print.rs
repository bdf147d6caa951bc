//! The pretty printer: a deterministic, indentation-based serialization of
//! an AST, mirroring the grammar's block nesting. An empty AST yields
//! empty text; there are no diagnostics and no failure modes.

use vstd::prelude::*;
use vstd::slice::slice_index_get;
use crate::parser::ast::{
    ActionCommand, BinOp, Command, Expr, MoveCommand, SpecExpr, SpecStmt, Stmt, spec_expr,
    spec_stmt, spec_stmts,
};
use crate::text::{i32_to_string, spec_dec_int};

verus! {

/// The rendering of a command keyword.
pub open spec fn sp_render_command(c: Command) -> Seq<char> {
    match c {
        Command::Move(MoveCommand::MoveUp) => "move_up"@,
        Command::Move(MoveCommand::MoveDown) => "move_down"@,
        Command::Move(MoveCommand::MoveLeft) => "move_left"@,
        Command::Move(MoveCommand::MoveRight) => "move_right"@,
        Command::Action(ActionCommand::Jump) => "jump"@,
        Command::Action(ActionCommand::Attack) => "attack"@,
        Command::Action(ActionCommand::Defend) => "defend"@,
    }
}

/// The rendering of an expression: identifiers and numbers as themselves,
/// binary operations fully parenthesized.
pub open spec fn sp_render_expr(e: SpecExpr) -> Seq<char>
    decreases e,
{
    match e {
        SpecExpr::Identifier(name) => name,
        SpecExpr::Number(value) => spec_dec_int(value),
        SpecExpr::BinaryOp { left, op, right } => "("@ + sp_render_expr(*left) + (if op
            == BinOp::Add {
            " + "@
        } else {
            " - "@
        }) + sp_render_expr(*right) + ")"@,
    }
}

/// The rendering of one statement at the given indentation prefix; nested
/// blocks extend the prefix by two spaces.
pub open spec fn sp_render_stmt(s: SpecStmt, ind: Seq<char>) -> Seq<char>
    decreases s,
{
    match s {
        SpecStmt::Command(c) => ind + "Command: "@ + sp_render_command(c) + "\n"@,
        SpecStmt::If { condition, then_branch, else_branch } => ind + "if ("@ + sp_render_expr(
            condition,
        ) + ") {\n"@ + sp_render_stmts(then_branch, ind + "  "@) + ind + "} else {\n"@
            + sp_render_stmts(else_branch, ind + "  "@) + ind + "}\n"@,
        SpecStmt::While { condition, body } => ind + "while ("@ + sp_render_expr(condition)
            + ") {\n"@ + sp_render_stmts(body, ind + "  "@) + ind + "}\n"@,
        SpecStmt::For { init, condition, update, body } => ind + "for ("@ + sp_render_expr(init)
            + "; "@ + sp_render_expr(condition) + "; "@ + sp_render_expr(update) + ") {\n"@
            + sp_render_stmts(body, ind + "  "@) + ind + "}\n"@,
        SpecStmt::Expr(e) => ind + "Expr: "@ + sp_render_expr(e) + "\n"@,
    }
}

/// The rendering of a statement sequence: each statement in order.
pub open spec fn sp_render_stmts(ss: Seq<SpecStmt>, ind: Seq<char>) -> Seq<char>
    decreases ss,
{
    if ss.len() == 0 {
        Seq::<char>::empty()
    } else {
        sp_render_stmt(ss[0], ind) + sp_render_stmts(ss.drop_first(), ind)
    }
}

/// A rendered statement is never empty: every statement ends its last
/// line with a newline.
pub proof fn lemma_render_stmt_nonempty(s: SpecStmt, ind: Seq<char>)
    ensures
        sp_render_stmt(s, ind).len() > 0,
{
    reveal_strlit("\n");
    reveal_strlit("}\n");
}

/// The printed form of an AST is empty exactly when the AST is empty.
pub proof fn lemma_render_empty_iff(ss: Seq<SpecStmt>, ind: Seq<char>)
    ensures
        (sp_render_stmts(ss, ind).len() == 0) <==> (ss.len() == 0),
{
    if ss.len() > 0 {
        lemma_render_stmt_nonempty(ss[0], ind);
    }
}

/// Serializes ASTs back to text, accumulating into one output buffer.
pub struct PrettyPrinter {
    pub output: String,
}

impl PrettyPrinter {
    pub fn new() -> (r: PrettyPrinter)
        ensures
            r.output@ =~= Seq::<char>::empty(),
    {
        PrettyPrinter { output: String::new() }
    }

    /// Appends the rendering of the statements to the buffer and returns
    /// the whole buffer. An empty AST yields empty text.
    pub fn print_stmts(&mut self, stmts: &[Stmt]) -> (r: String)
        ensures
            final(self).output@ == old(self).output@ + sp_render_stmts(
                spec_stmts(stmts@),
                Seq::<char>::empty(),
            ),
            r@ == final(self).output@,
    {
        let empty_indent = String::new();
        self.print_stmt_list(stmts, empty_indent.as_str());
        self.output.clone()
    }

    /// Appends the rendering of each statement in order, at the given
    /// indentation prefix.
    #[verifier::loop_isolation(false)]
    fn print_stmt_list(&mut self, stmts: &[Stmt], ind: &str)
        ensures
            final(self).output@ == old(self).output@ + sp_render_stmts(
                spec_stmts(stmts@),
                ind@,
            ),
        decreases stmts@,
    {
        let n = stmts.len();
        let mut i: usize = 0;
        while i < n
            invariant
                i <= n,
                self.output@ == old(self).output@ + sp_render_stmts(
                    spec_stmts(stmts@.subrange(0, i as int)),
                    ind@,
                ),
            decreases n - i,
        {
            proof {
                assert(decreases_to!(stmts@ => stmts@[i as int]));
            }
            self.print_stmt(slice_index_get(stmts, i), ind);
            proof {
                lemma_render_stmts_snoc(stmts@, i as int, ind@);
            }
            i += 1;
        }
        proof {
            assert(stmts@.subrange(0, n as int) =~= stmts@);
        }
    }

    /// Appends the rendering of one statement at the given indentation
    /// prefix.
    fn print_stmt(&mut self, stmt: &Stmt, ind: &str)
        ensures
            final(self).output@ == old(self).output@ + sp_render_stmt(spec_stmt(*stmt), ind@),
        decreases stmt,
    {
        match stmt {
            Stmt::Command(cmd) => {
                self.output.append(ind);
                self.output.append("Command: ");
                self.print_command(cmd);
                self.output.append("\n");
            proof {
                assert(self.output@ =~= old(self).output@ + sp_render_stmt(
                    spec_stmt(*stmt),
                    ind@,
                ));
            }
            },
            Stmt::IfStmt { condition, then_branch, else_branch } => {
                let mut nested = ind.to_owned();
                nested.append("  ");
                self.output.append(ind);
                self.output.append("if (");
                self.print_expr(condition);
                self.output.append(") {\n");
                self.print_stmt_list(then_branch.as_slice(), nested.as_str());
                self.output.append(ind);
                self.output.append("} else {\n");
                self.print_stmt_list(else_branch.as_slice(), nested.as_str());
                self.output.append(ind);
                self.output.append("}\n");
            proof {
                assert(self.output@ =~= old(self).output@ + sp_render_stmt(
                    spec_stmt(*stmt),
                    ind@,
                ));
            }
            },
            Stmt::WhileStmt { condition, body } => {
                let mut nested = ind.to_owned();
                nested.append("  ");
                self.output.append(ind);
                self.output.append("while (");
                self.print_expr(condition);
                self.output.append(") {\n");
                self.print_stmt_list(body.as_slice(), nested.as_str());
                self.output.append(ind);
                self.output.append("}\n");
            proof {
                assert(self.output@ =~= old(self).output@ + sp_render_stmt(
                    spec_stmt(*stmt),
                    ind@,
                ));
            }
            },
            Stmt::ForStmt { init, condition, update, body } => {
                let mut nested = ind.to_owned();
                nested.append("  ");
                self.output.append(ind);
                self.output.append("for (");
                self.print_expr(init);
                self.output.append("; ");
                self.print_expr(condition);
                self.output.append("; ");
                self.print_expr(update);
                self.output.append(") {\n");
                self.print_stmt_list(body.as_slice(), nested.as_str());
                self.output.append(ind);
                self.output.append("}\n");
            proof {
                assert(self.output@ =~= old(self).output@ + sp_render_stmt(
                    spec_stmt(*stmt),
                    ind@,
                ));
            }
            },
            Stmt::ExprStmt(e) => {
                self.output.append(ind);
                self.output.append("Expr: ");
                self.print_expr(e);
                self.output.append("\n");
            proof {
                assert(self.output@ =~= old(self).output@ + sp_render_stmt(
                    spec_stmt(*stmt),
                    ind@,
                ));
            }
            },
        }
    }

    /// Appends the rendering of a command keyword.
    fn print_command(&mut self, cmd: &Command)
        ensures
            final(self).output@ == old(self).output@ + sp_render_command(*cmd),
    {
        let keyword = match cmd {
            Command::Move(MoveCommand::MoveUp) => "move_up",
            Command::Move(MoveCommand::MoveDown) => "move_down",
            Command::Move(MoveCommand::MoveLeft) => "move_left",
            Command::Move(MoveCommand::MoveRight) => "move_right",
            Command::Action(ActionCommand::Jump) => "jump",
            Command::Action(ActionCommand::Attack) => "attack",
            Command::Action(ActionCommand::Defend) => "defend",
        };
        self.output.append(keyword);
        proof {
            assert(self.output@ =~= old(self).output@ + sp_render_command(*cmd));
        }
    }

    /// Appends the rendering of an expression.
    fn print_expr(&mut self, expr: &Expr)
        ensures
            final(self).output@ == old(self).output@ + sp_render_expr(spec_expr(*expr)),
        decreases expr,
    {
        match expr {
            Expr::Identifier(name) => {
                self.output.append(name.as_str());
                proof {
                    assert(self.output@ =~= old(self).output@ + sp_render_expr(spec_expr(*expr)));
                }
            },
            Expr::Number(value) => {
                let digits = i32_to_string(*value);
                self.output.append(digits.as_str());
                proof {
                    assert(self.output@ =~= old(self).output@ + sp_render_expr(spec_expr(*expr)));
                }
            },
            Expr::BinaryOp { left, op, right } => {
                self.output.append("(");
                self.print_expr(left);
                let op_text = match op {
                    BinOp::Add => " + ",
                    BinOp::Sub => " - ",
                };
                self.output.append(op_text);
                self.print_expr(right);
                self.output.append(")");
                proof {
                    assert(self.output@ =~= old(self).output@ + sp_render_expr(spec_expr(*expr)));
                }
            },
        }
    }
}

/// Rendering one more statement extends the rendering of the prefix.
proof fn lemma_render_stmts_snoc(ss: Seq<Stmt>, i: int, ind: Seq<char>)
    requires
        0 <= i < ss.len(),
    ensures
        sp_render_stmts(spec_stmts(ss.subrange(0, i + 1)), ind) =~= sp_render_stmts(
            spec_stmts(ss.subrange(0, i)),
            ind,
        ) + sp_render_stmt(spec_stmt(ss[i]), ind),
{
    crate::parser::ast::lemma_spec_stmts_index(ss.subrange(0, i + 1));
    lemma_render_stmts_push(spec_stmts(ss.subrange(0, i)), spec_stmt(ss[i]), ind);
    assert(ss.subrange(0, i + 1) =~= ss.subrange(0, i).push(ss[i]));
    crate::parser::ast::lemma_spec_stmts_push(ss.subrange(0, i), ss[i]);
}

/// `sp_render_stmts` distributes over `push`.
proof fn lemma_render_stmts_push(ss: Seq<SpecStmt>, x: SpecStmt, ind: Seq<char>)
    ensures
        sp_render_stmts(ss.push(x), ind) =~= sp_render_stmts(ss, ind) + sp_render_stmt(x, ind),
    decreases ss.len(),
{
    if ss.len() == 0 {
        assert(ss.push(x)[0] == x);
        assert(ss.push(x).drop_first() =~= Seq::<SpecStmt>::empty());
        assert(sp_render_stmts(ss.push(x), ind) =~= sp_render_stmt(x, ind) + sp_render_stmts(
            Seq::<SpecStmt>::empty(),
            ind,
        ));
        assert(sp_render_stmts(ss, ind) =~= Seq::<char>::empty());
    } else {
        assert(ss.push(x)[0] == ss[0]);
        assert(ss.push(x).drop_first() =~= ss.drop_first().push(x));
        lemma_render_stmts_push(ss.drop_first(), x, ind);
    }
}

} // verus!
