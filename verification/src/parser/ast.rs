//! The AST model: statement and expression variant types, together with
//! their mathematical mirrors used in contracts.

use vstd::prelude::*;

verus! {

/// A movement command keyword.
#[derive(Debug, Clone, Copy, PartialEq, Eq, Structural)]
pub enum MoveCommand {
    MoveUp,
    MoveDown,
    MoveLeft,
    MoveRight,
}

/// An action command keyword.
#[derive(Debug, Clone, Copy, PartialEq, Eq, Structural)]
pub enum ActionCommand {
    Jump,
    Attack,
    Defend,
}

/// A command statement: one of the movement or action keywords.
#[derive(Debug, Clone, Copy, PartialEq, Eq, Structural)]
pub enum Command {
    Move(MoveCommand),
    Action(ActionCommand),
}

/// The binary operators the expression grammar consumes. Lexical tokens
/// exist for `*`, `/`, `&&`, `||`, `!`, but the statement-level grammar
/// deliberately never consumes them.
#[derive(Debug, Clone, Copy, PartialEq, Eq, Structural)]
pub enum BinOp {
    Add,
    Sub,
}

/// An expression: a single precedence level of left-associative `+`/`-`
/// over identifiers and integer literals.
#[derive(Debug, PartialEq)]
pub enum Expr {
    Identifier(String),
    Number(i32),
    BinaryOp { left: Box<Expr>, op: BinOp, right: Box<Expr> },
}

/// A statement. Branch and body statement lists are ordered and exclusively
/// owned by their parent node.
#[derive(Debug, PartialEq)]
pub enum Stmt {
    Command(Command),
    IfStmt { condition: Expr, then_branch: Vec<Stmt>, else_branch: Vec<Stmt> },
    WhileStmt { condition: Expr, body: Vec<Stmt> },
    ForStmt { init: Expr, condition: Expr, update: Expr, body: Vec<Stmt> },
    ExprStmt(Expr),
}

/// The mathematical mirror of [`Expr`]: names as character sequences,
/// numbers as unbounded integers.
#[verifier::ext_equal]
pub enum SpecExpr {
    Identifier(Seq<char>),
    Number(int),
    BinaryOp { left: Box<SpecExpr>, op: BinOp, right: Box<SpecExpr> },
}

/// The mathematical mirror of [`Stmt`].
#[verifier::ext_equal]
pub enum SpecStmt {
    Command(Command),
    If { condition: SpecExpr, then_branch: Seq<SpecStmt>, else_branch: Seq<SpecStmt> },
    While { condition: SpecExpr, body: Seq<SpecStmt> },
    For { init: SpecExpr, condition: SpecExpr, update: SpecExpr, body: Seq<SpecStmt> },
    Expr(SpecExpr),
}

/// The mirror of one expression.
pub open spec fn spec_expr(e: Expr) -> SpecExpr
    decreases e,
{
    match e {
        Expr::Identifier(name) => SpecExpr::Identifier(name@),
        Expr::Number(value) => SpecExpr::Number(value as int),
        Expr::BinaryOp { left, op, right } => SpecExpr::BinaryOp {
            left: Box::new(spec_expr(*left)),
            op: op,
            right: Box::new(spec_expr(*right)),
        },
    }
}

impl DeepView for Expr {
    type V = SpecExpr;

    open spec fn deep_view(&self) -> SpecExpr {
        spec_expr(*self)
    }
}

/// The mirror of a statement sequence.
pub open spec fn spec_stmts(ss: Seq<Stmt>) -> Seq<SpecStmt>
    decreases ss,
{
    if ss.len() == 0 {
        Seq::<SpecStmt>::empty()
    } else {
        seq![spec_stmt(ss[0])] + spec_stmts(ss.drop_first())
    }
}

/// The mirror of one statement.
pub open spec fn spec_stmt(s: Stmt) -> SpecStmt
    decreases s,
{
    match s {
        Stmt::Command(c) => SpecStmt::Command(c),
        Stmt::IfStmt { condition, then_branch, else_branch } => SpecStmt::If {
            condition: spec_expr(condition),
            then_branch: spec_stmts(then_branch@),
            else_branch: spec_stmts(else_branch@),
        },
        Stmt::WhileStmt { condition, body } => SpecStmt::While {
            condition: spec_expr(condition),
            body: spec_stmts(body@),
        },
        Stmt::ForStmt { init, condition, update, body } => SpecStmt::For {
            init: spec_expr(init),
            condition: spec_expr(condition),
            update: spec_expr(update),
            body: spec_stmts(body@),
        },
        Stmt::ExprStmt(e) => SpecStmt::Expr(spec_expr(e)),
    }
}

impl DeepView for Stmt {
    type V = SpecStmt;

    open spec fn deep_view(&self) -> SpecStmt {
        spec_stmt(*self)
    }
}

impl Clone for Expr {
    /// Cloning preserves the expression's mathematical mirror.
    fn clone(&self) -> (r: Self)
        ensures
            spec_expr(r) == spec_expr(*self),
        decreases self,
    {
        match self {
            Expr::Identifier(name) => Expr::Identifier(name.clone()),
            Expr::Number(value) => Expr::Number(*value),
            Expr::BinaryOp { left, op, right } => Expr::BinaryOp {
                left: Box::new((**left).clone()),
                op: *op,
                right: Box::new((**right).clone()),
            },
        }
    }
}

impl Clone for Stmt {
    /// Cloning preserves the statement's mathematical mirror.
    fn clone(&self) -> (r: Self)
        ensures
            spec_stmt(r) == spec_stmt(*self),
        decreases self,
    {
        match self {
            Stmt::Command(c) => Stmt::Command(*c),
            Stmt::IfStmt { condition, then_branch, else_branch } => Stmt::IfStmt {
                condition: condition.clone(),
                then_branch: clone_stmts(then_branch),
                else_branch: clone_stmts(else_branch),
            },
            Stmt::WhileStmt { condition, body } => Stmt::WhileStmt {
                condition: condition.clone(),
                body: clone_stmts(body),
            },
            Stmt::ForStmt { init, condition, update, body } => Stmt::ForStmt {
                init: init.clone(),
                condition: condition.clone(),
                update: update.clone(),
                body: clone_stmts(body),
            },
            Stmt::ExprStmt(e) => Stmt::ExprStmt(e.clone()),
        }
    }
}

/// Clones a statement list, preserving its mathematical mirror.
fn clone_stmts(ss: &Vec<Stmt>) -> (r: Vec<Stmt>)
    ensures
        spec_stmts(r@) == spec_stmts(ss@),
    decreases ss@,
{
    let mut r: Vec<Stmt> = Vec::new();
    let mut i: usize = 0;
    proof {
        assert(ss@.subrange(0, 0) =~= Seq::<Stmt>::empty());
    }
    while i < ss.len()
        invariant
            i <= ss@.len(),
            spec_stmts(r@) == spec_stmts(ss@.subrange(0, i as int)),
        decreases ss@.len() - i,
    {
        proof {
            assert(decreases_to!(ss@ => ss@[i as int]));
        }
        let ghost before = r@;
        let cloned_stmt = ss[i].clone();
        r.push(cloned_stmt);
        proof {
            lemma_spec_stmts_push(before, r@[r@.len() - 1]);
            lemma_spec_stmts_push_seq(ss@, i as int);
        }
        i += 1;
    }
    proof {
        assert(ss@.subrange(0, ss@.len() as int) =~= ss@);
    }
    r
}

/// Extending a prefix by one element extends its mirror by that element.
proof fn lemma_spec_stmts_push_seq(ss: Seq<Stmt>, i: int)
    requires
        0 <= i < ss.len(),
    ensures
        spec_stmts(ss.subrange(0, i + 1)) =~= spec_stmts(ss.subrange(0, i)).push(spec_stmt(ss[i])),
{
    assert(ss.subrange(0, i + 1) =~= ss.subrange(0, i).push(ss[i]));
    lemma_spec_stmts_push(ss.subrange(0, i), ss[i]);
}

/// `spec_stmts` agrees with the element-wise mirror.
pub proof fn lemma_spec_stmts_index(ss: Seq<Stmt>)
    ensures
        spec_stmts(ss).len() == ss.len(),
        forall|k: int| 0 <= k < ss.len() ==> spec_stmts(ss)[k] == spec_stmt(ss[k]),
    decreases ss.len(),
{
    if ss.len() > 0 {
        lemma_spec_stmts_index(ss.drop_first());
        assert forall|k: int| 0 <= k < ss.len() implies spec_stmts(ss)[k] == spec_stmt(
            ss[k],
        ) by {
            if k > 0 {
                assert(spec_stmts(ss)[k] == spec_stmts(ss.drop_first())[k - 1]);
                assert(ss.drop_first()[k - 1] == ss[k]);
            }
        }
    }
}

/// `spec_stmts` distributes over `push`.
pub proof fn lemma_spec_stmts_push(ss: Seq<Stmt>, x: Stmt)
    ensures
        spec_stmts(ss.push(x)) =~= spec_stmts(ss).push(spec_stmt(x)),
    decreases ss.len(),
{
    lemma_spec_stmts_index(ss.push(x));
    lemma_spec_stmts_index(ss);
    assert forall|k: int| 0 <= k < ss.len() + 1 implies spec_stmts(ss.push(x))[k] == spec_stmts(
        ss,
    ).push(spec_stmt(x))[k] by {
        if k < ss.len() {
            assert(ss.push(x)[k] == ss[k]);
        } else {
            assert(ss.push(x)[k] == x);
        }
    }
}

} // verus!
