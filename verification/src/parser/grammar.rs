//! The grammar's mathematical description: spec functions that state, for
//! every production, the exact cursor movement, diagnostics, and AST node
//! the parser produces. The executable parser's contracts are stated
//! against these functions.
//!
//! Each production takes the token sequence, the source text (for deriving
//! diagnostic positions), and the cursor position, and yields the new
//! cursor position, the diagnostics appended, and its result.

use vstd::prelude::*;
use crate::error_handler::compiler_error::SpecDiag;
use crate::error_handler::error_type::ErrorType;
use crate::lexer::token::{Token, SpecTok, spec_token_name};
use crate::parser::ast::{
    ActionCommand, BinOp, Command, MoveCommand, SpecExpr, SpecStmt,
};
use crate::text::spec_parse_i32;

verus! {

/// The number of tokens not yet consumed: the measure every production
/// decreases.
pub open spec fn rem(toks: Seq<SpecTok>, pos: int) -> int {
    if pos < 0 {
        toks.len() as int
    } else if pos > toks.len() {
        0
    } else {
        toks.len() - pos
    }
}

/// The kind of the token under the cursor; `Error` past the end, so every
/// consumer treats "cursor past last element" as end of input.
pub open spec fn sp_peek(toks: Seq<SpecTok>, pos: int) -> Token {
    if 0 <= pos < toks.len() {
        toks[pos].kind
    } else {
        Token::Error
    }
}

/// The text of the token under the cursor; empty past the end.
pub open spec fn sp_cur_text(toks: Seq<SpecTok>, pos: int) -> Seq<char> {
    if 0 <= pos < toks.len() {
        toks[pos].text
    } else {
        Seq::<char>::empty()
    }
}

/// The offset of the token under the cursor; zero past the end.
pub open spec fn sp_cur_offset(toks: Seq<SpecTok>, pos: int) -> int {
    if 0 <= pos < toks.len() {
        toks[pos].offset
    } else {
        0
    }
}

/// The cursor after consuming one token: it never moves past the end.
pub open spec fn sp_advance_pos(toks: Seq<SpecTok>, pos: int) -> int {
    if 0 <= pos < toks.len() {
        pos + 1
    } else {
        pos
    }
}

/// Scans `src` from position `i`, carrying 1-based `line` and `col`, and
/// stops at `offset` (or at the end of the text).
pub open spec fn sp_line_col_from(
    src: Seq<char>,
    i: int,
    offset: int,
    line: int,
    col: int,
) -> (int, int)
    decreases src.len() - i,
{
    if i >= src.len() || i == offset {
        (line, col)
    } else if src[i] == '\n' {
        sp_line_col_from(src, i + 1, offset, line + 1, 1)
    } else {
        sp_line_col_from(src, i + 1, offset, line, col + 1)
    }
}

/// The 1-based line and column of character position `offset` in `src`:
/// one linear scan counting newlines.
pub open spec fn sp_line_col(src: Seq<char>, offset: int) -> (int, int) {
    sp_line_col_from(src, 0, offset, 1, 1)
}

/// The diagnostic recorded for a syntax error at the cursor: the message,
/// the text actually found, and the position derived from the offending
/// token's offset.
pub open spec fn sp_error(
    toks: Seq<SpecTok>,
    src: Seq<char>,
    pos: int,
    msg: Seq<char>,
) -> SpecDiag {
    let text = sp_cur_text(toks, pos);
    let lc = sp_line_col(src, sp_cur_offset(toks, pos));
    SpecDiag {
        kind: ErrorType::Syntactic,
        message: msg + " (found '"@ + text + "')"@,
        line: lc.0 as nat,
        column: lc.1 as nat,
    }
}

/// Consuming an expected token: on a match the cursor moves one token and
/// nothing is reported; on a mismatch the cursor stays, and one diagnostic
/// naming what was expected and what was found is recorded.
pub open spec fn sp_consume(
    toks: Seq<SpecTok>,
    src: Seq<char>,
    pos: int,
    expected: Token,
    msg: Seq<char>,
) -> (int, Seq<SpecDiag>, bool) {
    if sp_peek(toks, pos) == expected {
        (sp_advance_pos(toks, pos), Seq::<SpecDiag>::empty(), true)
    } else {
        (pos, seq![sp_error(toks, src, pos, msg)], false)
    }
}

/// The cursor after skipping the run of newline tokens under it.
pub open spec fn sp_skip_newlines(toks: Seq<SpecTok>, pos: int) -> int
    decreases rem(toks, pos),
{
    if sp_peek(toks, pos) == Token::Newline {
        sp_skip_newlines(toks, pos + 1)
    } else {
        pos
    }
}

pub proof fn lemma_skip_newlines_bounds(toks: Seq<SpecTok>, pos: int)
    ensures
        pos <= sp_skip_newlines(toks, pos),
        pos <= toks.len() ==> sp_skip_newlines(toks, pos) <= toks.len(),
        pos >= toks.len() ==> sp_skip_newlines(toks, pos) == pos,
    decreases rem(toks, pos),
{
    if sp_peek(toks, pos) == Token::Newline {
        lemma_skip_newlines_bounds(toks, pos + 1);
    }
}

/// `primary := IDENTIFIER | NUMBER`. The cursor always moves one token (if
/// any input is left). A number whose text fails integer parsing still
/// yields `Number(0)` plus a diagnostic; any other token yields a
/// diagnostic and no node.
pub open spec fn sp_parse_primary(toks: Seq<SpecTok>, src: Seq<char>, pos: int) -> (
    int,
    Seq<SpecDiag>,
    Option<SpecExpr>,
) {
    let kind = sp_peek(toks, pos);
    let text = sp_cur_text(toks, pos);
    let p1 = sp_advance_pos(toks, pos);
    if kind == Token::Identifier {
        (p1, Seq::<SpecDiag>::empty(), Some(SpecExpr::Identifier(text)))
    } else if kind == Token::Number {
        match spec_parse_i32(text) {
            Some(v) => (p1, Seq::<SpecDiag>::empty(), Some(SpecExpr::Number(v as int))),
            None => (
                p1,
                seq![sp_error(toks, src, p1, "Invalid number literal"@)],
                Some(SpecExpr::Number(0)),
            ),
        }
    } else {
        (
            p1,
            seq![
                sp_error(
                    toks,
                    src,
                    p1,
                    "Unexpected token '"@ + spec_token_name(kind) + "' in expression (found '"@
                        + text + "')"@,
                ),
            ],
            None,
        )
    }
}

pub proof fn lemma_parse_primary_bounds(toks: Seq<SpecTok>, src: Seq<char>, pos: int)
    ensures
        pos <= sp_parse_primary(toks, src, pos).0,
        sp_parse_primary(toks, src, pos).0 <= pos + 1,
        0 <= pos < toks.len() ==> sp_parse_primary(toks, src, pos).0 == pos + 1,
        !(0 <= pos < toks.len()) ==> sp_parse_primary(toks, src, pos).0 == pos,
{
}

/// The left-associative fold of `('+' | '-') primary` onto `acc`:
/// `expr := primary (('+' | '-') primary)*`.
pub open spec fn sp_expr_loop(toks: Seq<SpecTok>, src: Seq<char>, pos: int, acc: SpecExpr) -> (
    int,
    Seq<SpecDiag>,
    Option<SpecExpr>,
)
    decreases rem(toks, pos),
{
    let kind = sp_peek(toks, pos);
    if kind == Token::Plus || kind == Token::Minus {
        let op = if kind == Token::Plus {
            BinOp::Add
        } else {
            BinOp::Sub
        };
        let p1 = sp_advance_pos(toks, pos);
        let step = sp_parse_primary(toks, src, p1);
        match step.2 {
            None => (step.0, step.1, None),
            Some(rhs) => {
                let folded = SpecExpr::BinaryOp { left: Box::new(acc), op: op, right: Box::new(rhs) };
                let rest = sp_expr_loop(toks, src, step.0, folded);
                (rest.0, step.1 + rest.1, rest.2)
            },
        }
    } else {
        (pos, Seq::<SpecDiag>::empty(), Some(acc))
    }
}

pub proof fn lemma_expr_loop_bounds(toks: Seq<SpecTok>, src: Seq<char>, pos: int, acc: SpecExpr)
    ensures
        pos <= sp_expr_loop(toks, src, pos, acc).0,
        pos <= toks.len() ==> sp_expr_loop(toks, src, pos, acc).0 <= toks.len(),
        pos >= toks.len() ==> sp_expr_loop(toks, src, pos, acc).0 == pos,
    decreases rem(toks, pos),
{
    let kind = sp_peek(toks, pos);
    if kind == Token::Plus || kind == Token::Minus {
        let p1 = sp_advance_pos(toks, pos);
        let step = sp_parse_primary(toks, src, p1);
        match step.2 {
            None => {},
            Some(rhs) => {
                let op = if kind == Token::Plus {
                    BinOp::Add
                } else {
                    BinOp::Sub
                };
                let folded = SpecExpr::BinaryOp { left: Box::new(acc), op: op, right: Box::new(rhs) };
                lemma_expr_loop_bounds(toks, src, step.0, folded);
            },
        }
    }
}

/// `expr := primary (('+' | '-') primary)*`, left-associative.
pub open spec fn sp_parse_expr(toks: Seq<SpecTok>, src: Seq<char>, pos: int) -> (
    int,
    Seq<SpecDiag>,
    Option<SpecExpr>,
) {
    let first = sp_parse_primary(toks, src, pos);
    match first.2 {
        None => (first.0, first.1, None),
        Some(e) => {
            let rest = sp_expr_loop(toks, src, first.0, e);
            (rest.0, first.1 + rest.1, rest.2)
        },
    }
}

pub proof fn lemma_parse_expr_bounds(toks: Seq<SpecTok>, src: Seq<char>, pos: int)
    ensures
        pos <= sp_parse_expr(toks, src, pos).0,
        0 <= pos <= toks.len() ==> sp_parse_expr(toks, src, pos).0 <= toks.len(),
        0 <= pos < toks.len() ==> sp_parse_expr(toks, src, pos).0 > pos,
        pos >= toks.len() ==> sp_parse_expr(toks, src, pos).0 == pos,
{
    let first = sp_parse_primary(toks, src, pos);
    match first.2 {
        None => {},
        Some(e) => {
            lemma_expr_loop_bounds(toks, src, first.0, e);
        },
    }
}

/// `command`: one of the seven command keywords becomes a `Command` node;
/// the cursor always moves one token; anything else is reported.
pub open spec fn sp_parse_command(toks: Seq<SpecTok>, src: Seq<char>, pos: int) -> (
    int,
    Seq<SpecDiag>,
    Option<SpecStmt>,
) {
    let kind = sp_peek(toks, pos);
    let p1 = sp_advance_pos(toks, pos);
    if kind == Token::MoveUp {
        (p1, Seq::<SpecDiag>::empty(), Some(SpecStmt::Command(Command::Move(MoveCommand::MoveUp))))
    } else if kind == Token::MoveDown {
        (
            p1,
            Seq::<SpecDiag>::empty(),
            Some(SpecStmt::Command(Command::Move(MoveCommand::MoveDown))),
        )
    } else if kind == Token::MoveLeft {
        (
            p1,
            Seq::<SpecDiag>::empty(),
            Some(SpecStmt::Command(Command::Move(MoveCommand::MoveLeft))),
        )
    } else if kind == Token::MoveRight {
        (
            p1,
            Seq::<SpecDiag>::empty(),
            Some(SpecStmt::Command(Command::Move(MoveCommand::MoveRight))),
        )
    } else if kind == Token::Jump {
        (
            p1,
            Seq::<SpecDiag>::empty(),
            Some(SpecStmt::Command(Command::Action(ActionCommand::Jump))),
        )
    } else if kind == Token::Attack {
        (
            p1,
            Seq::<SpecDiag>::empty(),
            Some(SpecStmt::Command(Command::Action(ActionCommand::Attack))),
        )
    } else if kind == Token::Defend {
        (
            p1,
            Seq::<SpecDiag>::empty(),
            Some(SpecStmt::Command(Command::Action(ActionCommand::Defend))),
        )
    } else {
        (p1, seq![sp_error(toks, src, p1, "Invalid command"@)], None)
    }
}

pub proof fn lemma_parse_command_bounds(toks: Seq<SpecTok>, src: Seq<char>, pos: int)
    ensures
        pos <= sp_parse_command(toks, src, pos).0,
        sp_parse_command(toks, src, pos).0 <= pos + 1,
        0 <= pos < toks.len() ==> sp_parse_command(toks, src, pos).0 == pos + 1,
        !(0 <= pos < toks.len()) ==> sp_parse_command(toks, src, pos).0 == pos,
{
}

/// The continuation position for a driver loop: productions always move
/// the cursor forward (proved below), so this is `p` itself; the guard
/// makes the forward progress, and hence termination, definitionally
/// evident.
pub open spec fn sp_progress(pos: int, p: int) -> int {
    if p > pos {
        p
    } else {
        pos + 1
    }
}

/// `stmt := command | ifStmt | whileStmt | forStmt | exprStmt`, dispatched
/// on the current token kind. If the fallback expression statement also
/// fails, an "Expected statement" diagnostic is recorded and one token is
/// consumed, which is the forward-progress guarantee of panic-mode
/// recovery.
pub open spec fn sp_parse_stmt(toks: Seq<SpecTok>, src: Seq<char>, pos: int) -> (
    int,
    Seq<SpecDiag>,
    Option<SpecStmt>,
)
    decreases rem(toks, pos), 1int,
{
    let kind = sp_peek(toks, pos);
    if kind == Token::MoveUp || kind == Token::MoveDown || kind == Token::MoveLeft || kind
        == Token::MoveRight || kind == Token::Jump || kind == Token::Attack || kind
        == Token::Defend {
        sp_parse_command(toks, src, pos)
    } else if kind == Token::If {
        sp_parse_if(toks, src, pos)
    } else if kind == Token::While {
        sp_parse_while(toks, src, pos)
    } else if kind == Token::For {
        sp_parse_for(toks, src, pos)
    } else {
        let e = sp_parse_expr(toks, src, pos);
        match e.2 {
            Some(expr) => (e.0, e.1, Some(SpecStmt::Expr(expr))),
            None => (
                sp_advance_pos(toks, e.0),
                e.1 + seq![sp_error(toks, src, e.0, "Expected statement"@)],
                None,
            ),
        }
    }
}

/// `ifStmt := 'if' '(' expr ')' block 'else' block`; the `else` branch is
/// mandatory, and its absence is reported rather than tolerated.
pub open spec fn sp_parse_if(toks: Seq<SpecTok>, src: Seq<char>, pos: int) -> (
    int,
    Seq<SpecDiag>,
    Option<SpecStmt>,
)
    decreases rem(toks, pos), 0int,
{
    let c1 = sp_consume(toks, src, pos, Token::If, "Expected 'if'"@);
    if !c1.2 {
        (c1.0, c1.1, None)
    } else {
        let c2 = sp_consume(toks, src, c1.0, Token::LParen, "Expected '(' after if"@);
        if !c2.2 {
            (c2.0, c2.1, None)
        } else {
            let e = sp_parse_expr(toks, src, c2.0);
            match e.2 {
                None => (e.0, e.1, None),
                Some(cond) => {
                    let c3 = sp_consume(
                        toks,
                        src,
                        e.0,
                        Token::RParen,
                        "Expected ')' after if condition"@,
                    );
                    if !c3.2 {
                        (c3.0, e.1 + c3.1, None)
                    } else {
                        let tb = sp_parse_block(toks, src, sp_progress(pos, c3.0));
                        let c4 = sp_consume(
                            toks,
                            src,
                            tb.0,
                            Token::Else,
                            "Expected 'else' after if block"@,
                        );
                        if !c4.2 {
                            (c4.0, e.1 + tb.1 + c4.1, None)
                        } else {
                            let eb = sp_parse_block(toks, src, sp_progress(pos, c4.0));
                            (
                                eb.0,
                                e.1 + tb.1 + eb.1,
                                Some(
                                    SpecStmt::If {
                                        condition: cond,
                                        then_branch: tb.2,
                                        else_branch: eb.2,
                                    },
                                ),
                            )
                        }
                    }
                },
            }
        }
    }
}

/// `whileStmt := 'while' '(' expr ')' block`.
pub open spec fn sp_parse_while(toks: Seq<SpecTok>, src: Seq<char>, pos: int) -> (
    int,
    Seq<SpecDiag>,
    Option<SpecStmt>,
)
    decreases rem(toks, pos), 0int,
{
    let c1 = sp_consume(toks, src, pos, Token::While, "Expected 'while'"@);
    if !c1.2 {
        (c1.0, c1.1, None)
    } else {
        let c2 = sp_consume(toks, src, c1.0, Token::LParen, "Expected '(' after while"@);
        if !c2.2 {
            (c2.0, c2.1, None)
        } else {
            let e = sp_parse_expr(toks, src, c2.0);
            match e.2 {
                None => (e.0, e.1, None),
                Some(cond) => {
                    let c3 = sp_consume(
                        toks,
                        src,
                        e.0,
                        Token::RParen,
                        "Expected ')' after while condition"@,
                    );
                    if !c3.2 {
                        (c3.0, e.1 + c3.1, None)
                    } else {
                        let body = sp_parse_block(toks, src, sp_progress(pos, c3.0));
                        (
                            body.0,
                            e.1 + body.1,
                            Some(SpecStmt::While { condition: cond, body: body.2 }),
                        )
                    }
                },
            }
        }
    }
}

/// `forStmt := 'for' '(' expr ';' expr ';' expr ')' block`.
pub open spec fn sp_parse_for(toks: Seq<SpecTok>, src: Seq<char>, pos: int) -> (
    int,
    Seq<SpecDiag>,
    Option<SpecStmt>,
)
    decreases rem(toks, pos), 0int,
{
    let c1 = sp_consume(toks, src, pos, Token::For, "Expected 'for'"@);
    if !c1.2 {
        (c1.0, c1.1, None)
    } else {
        let c2 = sp_consume(toks, src, c1.0, Token::LParen, "Expected '(' after for"@);
        if !c2.2 {
            (c2.0, c2.1, None)
        } else {
            let e1 = sp_parse_expr(toks, src, c2.0);
            match e1.2 {
                None => (e1.0, e1.1, None),
                Some(init) => {
                    let c3 = sp_consume(
                        toks,
                        src,
                        e1.0,
                        Token::Semicolon,
                        "Expected ';' after initialization"@,
                    );
                    if !c3.2 {
                        (c3.0, e1.1 + c3.1, None)
                    } else {
                        let e2 = sp_parse_expr(toks, src, c3.0);
                        match e2.2 {
                            None => (e2.0, e1.1 + e2.1, None),
                            Some(cond) => {
                                let c4 = sp_consume(
                                    toks,
                                    src,
                                    e2.0,
                                    Token::Semicolon,
                                    "Expected ';' after condition"@,
                                );
                                if !c4.2 {
                                    (c4.0, e1.1 + e2.1 + c4.1, None)
                                } else {
                                    let e3 = sp_parse_expr(toks, src, c4.0);
                                    match e3.2 {
                                        None => (e3.0, e1.1 + e2.1 + e3.1, None),
                                        Some(update) => {
                                            let c5 = sp_consume(
                                                toks,
                                                src,
                                                e3.0,
                                                Token::RParen,
                                                "Expected ')' after for clauses"@,
                                            );
                                            if !c5.2 {
                                                (c5.0, e1.1 + e2.1 + e3.1 + c5.1, None)
                                            } else {
                                                let body = sp_parse_block(
                                                    toks,
                                                    src,
                                                    sp_progress(pos, c5.0),
                                                );
                                                (
                                                    body.0,
                                                    e1.1 + e2.1 + e3.1 + body.1,
                                                    Some(
                                                        SpecStmt::For {
                                                            init: init,
                                                            condition: cond,
                                                            update: update,
                                                            body: body.2,
                                                        },
                                                    ),
                                                )
                                            }
                                        },
                                    }
                                }
                            },
                        }
                    }
                },
            }
        }
    }
}

/// `block := '{' (NEWLINE* stmt)* NEWLINE* '}'`. A missing opening brace
/// aborts the block with a diagnostic; a missing closing brace is reported
/// after collecting statements up to end of input.
pub open spec fn sp_parse_block(toks: Seq<SpecTok>, src: Seq<char>, pos: int) -> (
    int,
    Seq<SpecDiag>,
    Seq<SpecStmt>,
)
    decreases rem(toks, pos), 3int,
{
    let c1 = sp_consume(toks, src, pos, Token::LBrace, "Expected '{' to start block"@);
    if !c1.2 {
        (c1.0, c1.1, Seq::<SpecStmt>::empty())
    } else {
        let items = sp_block_items(toks, src, c1.0);
        let c2 = sp_consume(toks, src, items.0, Token::RBrace, "Expected '}' to close block"@);
        (c2.0, items.1 + c2.1, items.2)
    }
}

/// The statement-collecting loop of a block: it stops at a closing brace
/// or at end of input, and otherwise parses one statement, advancing the
/// cursor past one token on failure.
pub open spec fn sp_block_items(toks: Seq<SpecTok>, src: Seq<char>, pos: int) -> (
    int,
    Seq<SpecDiag>,
    Seq<SpecStmt>,
)
    decreases rem(toks, pos), 2int,
{
    if !(0 <= pos < toks.len() && sp_peek(toks, pos) != Token::RBrace) {
        (pos, Seq::<SpecDiag>::empty(), Seq::<SpecStmt>::empty())
    } else {
        let p0 = sp_skip_newlines(toks, pos);
        proof {
            lemma_skip_newlines_bounds(toks, pos);
        }
        if sp_peek(toks, p0) == Token::RBrace {
            (p0, Seq::<SpecDiag>::empty(), Seq::<SpecStmt>::empty())
        } else {
            let st = sp_parse_stmt(toks, src, p0);
            match st.2 {
                Some(node) => {
                    let rest = sp_block_items(toks, src, sp_progress(pos, st.0));
                    (rest.0, st.1 + rest.1, seq![node] + rest.2)
                },
                None => {
                    let rest = sp_block_items(toks, src, sp_progress(pos, sp_advance_pos(toks, st.0)));
                    (rest.0, st.1 + rest.1, rest.2)
                },
            }
        }
    }
}

/// The top-level driver loop: `program := (NEWLINE* stmt)* NEWLINE*`,
/// ending at end of input.
pub open spec fn sp_program_items(toks: Seq<SpecTok>, src: Seq<char>, pos: int) -> (
    int,
    Seq<SpecDiag>,
    Seq<SpecStmt>,
)
    decreases rem(toks, pos), 2int,
{
    if !(0 <= pos < toks.len()) {
        (pos, Seq::<SpecDiag>::empty(), Seq::<SpecStmt>::empty())
    } else {
        let p0 = sp_skip_newlines(toks, pos);
        proof {
            lemma_skip_newlines_bounds(toks, pos);
        }
        if p0 >= toks.len() {
            (p0, Seq::<SpecDiag>::empty(), Seq::<SpecStmt>::empty())
        } else {
            let st = sp_parse_stmt(toks, src, p0);
            match st.2 {
                Some(node) => {
                    let rest = sp_program_items(toks, src, sp_progress(pos, st.0));
                    (rest.0, st.1 + rest.1, seq![node] + rest.2)
                },
                None => {
                    let rest = sp_program_items(
                        toks,
                        src,
                        sp_progress(pos, sp_advance_pos(toks, st.0)),
                    );
                    (rest.0, st.1 + rest.1, rest.2)
                },
            }
        }
    }
}

/// Forward progress and cursor bounds for `sp_parse_stmt`: a statement
/// production never moves the cursor backwards or past the end, and when
/// any input is left it consumes at least one token, even on failure. This
/// bounds the parser's total work and rules out infinite loops on
/// arbitrarily malformed input.
pub proof fn lemma_parse_stmt_bounds(toks: Seq<SpecTok>, src: Seq<char>, pos: int)
    requires
        0 <= pos,
    ensures
        pos <= sp_parse_stmt(toks, src, pos).0,
        pos <= toks.len() ==> sp_parse_stmt(toks, src, pos).0 <= toks.len(),
        pos >= toks.len() ==> sp_parse_stmt(toks, src, pos).0 == pos,
        pos < toks.len() ==> sp_parse_stmt(toks, src, pos).0 > pos,
    decreases rem(toks, pos), 1int,
{
    let kind = sp_peek(toks, pos);
    if kind == Token::MoveUp || kind == Token::MoveDown || kind == Token::MoveLeft || kind
        == Token::MoveRight || kind == Token::Jump || kind == Token::Attack || kind
        == Token::Defend {
        lemma_parse_command_bounds(toks, src, pos);
    } else if kind == Token::If {
        lemma_parse_if_bounds(toks, src, pos);
    } else if kind == Token::While {
        lemma_parse_while_bounds(toks, src, pos);
    } else if kind == Token::For {
        lemma_parse_for_bounds(toks, src, pos);
    } else {
        lemma_parse_expr_bounds(toks, src, pos);
    }
}

pub proof fn lemma_parse_if_bounds(toks: Seq<SpecTok>, src: Seq<char>, pos: int)
    requires
        0 <= pos,
    ensures
        pos <= sp_parse_if(toks, src, pos).0,
        pos <= toks.len() ==> sp_parse_if(toks, src, pos).0 <= toks.len(),
        sp_peek(toks, pos) != Token::If ==> sp_parse_if(toks, src, pos).0 == pos,
        sp_peek(toks, pos) == Token::If ==> sp_parse_if(toks, src, pos).0 > pos,
    decreases rem(toks, pos), 0int,
{
    let c1 = sp_consume(toks, src, pos, Token::If, "Expected 'if'"@);
    if c1.2 {
        let c2 = sp_consume(toks, src, c1.0, Token::LParen, "Expected '(' after if"@);
        if c2.2 {
            let e = sp_parse_expr(toks, src, c2.0);
            lemma_parse_expr_bounds(toks, src, c2.0);
            if e.2 is Some {
                let c3 = sp_consume(toks, src, e.0, Token::RParen, "Expected ')' after if condition"@);
                if c3.2 {
                    assert(sp_progress(pos, c3.0) == c3.0);
                    let tb = sp_parse_block(toks, src, c3.0);
                    lemma_parse_block_bounds(toks, src, c3.0);
                    let c4 = sp_consume(toks, src, tb.0, Token::Else, "Expected 'else' after if block"@);
                    if c4.2 {
                        assert(sp_progress(pos, c4.0) == c4.0);
                        lemma_parse_block_bounds(toks, src, c4.0);
                    }
                }
            }
        }
    }
}

pub proof fn lemma_parse_while_bounds(toks: Seq<SpecTok>, src: Seq<char>, pos: int)
    requires
        0 <= pos,
    ensures
        pos <= sp_parse_while(toks, src, pos).0,
        pos <= toks.len() ==> sp_parse_while(toks, src, pos).0 <= toks.len(),
        sp_peek(toks, pos) != Token::While ==> sp_parse_while(toks, src, pos).0 == pos,
        sp_peek(toks, pos) == Token::While ==> sp_parse_while(toks, src, pos).0 > pos,
    decreases rem(toks, pos), 0int,
{
    let c1 = sp_consume(toks, src, pos, Token::While, "Expected 'while'"@);
    if c1.2 {
        let c2 = sp_consume(toks, src, c1.0, Token::LParen, "Expected '(' after while"@);
        if c2.2 {
            let e = sp_parse_expr(toks, src, c2.0);
            lemma_parse_expr_bounds(toks, src, c2.0);
            if e.2 is Some {
                let c3 = sp_consume(
                    toks,
                    src,
                    e.0,
                    Token::RParen,
                    "Expected ')' after while condition"@,
                );
                if c3.2 {
                    assert(sp_progress(pos, c3.0) == c3.0);
                    lemma_parse_block_bounds(toks, src, c3.0);
                }
            }
        }
    }
}

pub proof fn lemma_parse_for_bounds(toks: Seq<SpecTok>, src: Seq<char>, pos: int)
    requires
        0 <= pos,
    ensures
        pos <= sp_parse_for(toks, src, pos).0,
        pos <= toks.len() ==> sp_parse_for(toks, src, pos).0 <= toks.len(),
        sp_peek(toks, pos) != Token::For ==> sp_parse_for(toks, src, pos).0 == pos,
        sp_peek(toks, pos) == Token::For ==> sp_parse_for(toks, src, pos).0 > pos,
    decreases rem(toks, pos), 0int,
{
    let c1 = sp_consume(toks, src, pos, Token::For, "Expected 'for'"@);
    if c1.2 {
        let c2 = sp_consume(toks, src, c1.0, Token::LParen, "Expected '(' after for"@);
        if c2.2 {
            let e1 = sp_parse_expr(toks, src, c2.0);
            lemma_parse_expr_bounds(toks, src, c2.0);
            if e1.2 is Some {
                let c3 = sp_consume(
                    toks,
                    src,
                    e1.0,
                    Token::Semicolon,
                    "Expected ';' after initialization"@,
                );
                if c3.2 {
                    let e2 = sp_parse_expr(toks, src, c3.0);
                    lemma_parse_expr_bounds(toks, src, c3.0);
                    if e2.2 is Some {
                        let c4 = sp_consume(
                            toks,
                            src,
                            e2.0,
                            Token::Semicolon,
                            "Expected ';' after condition"@,
                        );
                        if c4.2 {
                            let e3 = sp_parse_expr(toks, src, c4.0);
                            lemma_parse_expr_bounds(toks, src, c4.0);
                            if e3.2 is Some {
                                let c5 = sp_consume(
                                    toks,
                                    src,
                                    e3.0,
                                    Token::RParen,
                                    "Expected ')' after for clauses"@,
                                );
                                if c5.2 {
                                    assert(sp_progress(pos, c5.0) == c5.0);
                                    lemma_parse_block_bounds(toks, src, c5.0);
                                }
                            }
                        }
                    }
                }
            }
        }
    }
}

pub proof fn lemma_parse_block_bounds(toks: Seq<SpecTok>, src: Seq<char>, pos: int)
    requires
        0 <= pos,
    ensures
        pos <= sp_parse_block(toks, src, pos).0,
        pos <= toks.len() ==> sp_parse_block(toks, src, pos).0 <= toks.len(),
        pos >= toks.len() ==> sp_parse_block(toks, src, pos).0 == pos,
        sp_peek(toks, pos) == Token::LBrace ==> sp_parse_block(toks, src, pos).0 > pos,
    decreases rem(toks, pos), 3int,
{
    let c1 = sp_consume(toks, src, pos, Token::LBrace, "Expected '{' to start block"@);
    if c1.2 {
        lemma_block_items_bounds(toks, src, c1.0);
    }
}

pub proof fn lemma_block_items_bounds(toks: Seq<SpecTok>, src: Seq<char>, pos: int)
    requires
        0 <= pos,
    ensures
        pos <= sp_block_items(toks, src, pos).0,
        pos <= toks.len() ==> sp_block_items(toks, src, pos).0 <= toks.len(),
        pos >= toks.len() ==> sp_block_items(toks, src, pos).0 == pos,
    decreases rem(toks, pos), 2int,
{
    if 0 <= pos < toks.len() && sp_peek(toks, pos) != Token::RBrace {
        let p0 = sp_skip_newlines(toks, pos);
        lemma_skip_newlines_bounds(toks, pos);
        if sp_peek(toks, p0) != Token::RBrace {
            let st = sp_parse_stmt(toks, src, p0);
            lemma_parse_stmt_bounds(toks, src, p0);
            match st.2 {
                Some(_) => {
                    assert(st.0 > pos);
                    lemma_block_items_bounds(toks, src, st.0);
                },
                None => {
                    let p2 = sp_advance_pos(toks, st.0);
                    assert(p2 > pos);
                    lemma_block_items_bounds(toks, src, p2);
                },
            }
        }
    }
}

pub proof fn lemma_program_items_bounds(toks: Seq<SpecTok>, src: Seq<char>, pos: int)
    requires
        0 <= pos,
    ensures
        pos <= sp_program_items(toks, src, pos).0,
        pos <= toks.len() ==> sp_program_items(toks, src, pos).0 <= toks.len(),
        pos >= toks.len() ==> sp_program_items(toks, src, pos).0 == pos,
    decreases rem(toks, pos), 2int,
{
    if 0 <= pos < toks.len() {
        let p0 = sp_skip_newlines(toks, pos);
        lemma_skip_newlines_bounds(toks, pos);
        if p0 < toks.len() {
            let st = sp_parse_stmt(toks, src, p0);
            lemma_parse_stmt_bounds(toks, src, p0);
            match st.2 {
                Some(_) => {
                    assert(st.0 > pos);
                    lemma_program_items_bounds(toks, src, st.0);
                },
                None => {
                    let p2 = sp_advance_pos(toks, st.0);
                    assert(p2 > pos);
                    lemma_program_items_bounds(toks, src, p2);
                },
            }
        }
    }
}

/// The driver loop consumes the token sequence exactly once: whatever the
/// input, the cursor ends at or past the last token. Together with the
/// `decreases` measures of every production (which Verus checks), this is
/// the guarantee that parsing terminates for every finite token sequence,
/// including adversarial or malformed ones.
pub proof fn lemma_parse_reaches_end(toks: Seq<SpecTok>, src: Seq<char>, pos: int)
    requires
        0 <= pos,
    ensures
        sp_program_items(toks, src, pos).0 >= toks.len(),
    decreases rem(toks, pos), 3int,
{
    if 0 <= pos < toks.len() {
        let p0 = sp_skip_newlines(toks, pos);
        lemma_skip_newlines_bounds(toks, pos);
        if p0 < toks.len() {
            let st = sp_parse_stmt(toks, src, p0);
            lemma_parse_stmt_bounds(toks, src, p0);
            match st.2 {
                Some(_) => {
                    lemma_parse_reaches_end(toks, src, st.0);
                },
                None => {
                    lemma_parse_reaches_end(toks, src, sp_advance_pos(toks, st.0));
                },
            }
        }
    }
}

/// The whole parse: the top-level statement list and the diagnostics, in
/// encounter order.
pub open spec fn sp_parse_program(toks: Seq<SpecTok>, src: Seq<char>, pos: int) -> (
    int,
    Seq<SpecDiag>,
    Seq<SpecStmt>,
) {
    sp_program_items(toks, src, pos)
}

} // verus!
