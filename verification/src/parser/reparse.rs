//! The printable-and-reparsable fragment of the AST, and the proof that
//! parsing the token form of its printed text yields the same AST back.
//!
//! The pretty printer's output is not in general valid syntax: command
//! statements print with a `Command: ` marker, expression statements with
//! an `Expr: ` marker, and binary operations fully parenthesized, none of
//! which the grammar accepts. What does re-parse is the control-structure
//! fragment: `if`/`while`/`for` statements whose conditions are plain
//! identifiers, nested to any depth. For that fragment, the printed text
//! tokenizes to the patterns below (keywords, punctuation and newlines in
//! print order, identifier tokens carrying the printed names), and this
//! module proves that the parser maps any token sequence of that shape
//! back to the original statements, with zero diagnostics.

use vstd::prelude::*;
use crate::error_handler::compiler_error::SpecDiag;
use crate::lexer::token::{SpecTok, Token};
use crate::parser::ast::{SpecExpr, SpecStmt};
use crate::parser::grammar::{
    sp_block_items, sp_parse_block, sp_parse_expr, sp_parse_stmt, sp_peek, sp_program_items,
    sp_progress, sp_skip_newlines,
};

verus! {

/// The reparsable fragment: control structures whose conditions are plain
/// identifiers, with fragment bodies.
pub open spec fn frag_stmt_ok(s: SpecStmt) -> bool
    decreases s,
{
    match s {
        SpecStmt::If { condition, then_branch, else_branch } => condition is Identifier
            && frag_stmts_ok(then_branch) && frag_stmts_ok(else_branch),
        SpecStmt::While { condition, body } => condition is Identifier && frag_stmts_ok(body),
        SpecStmt::For { init, condition, update, body } => init is Identifier
            && condition is Identifier && update is Identifier && frag_stmts_ok(body),
        _ => false,
    }
}

/// Every statement of the list is in the fragment.
pub open spec fn frag_stmts_ok(ss: Seq<SpecStmt>) -> bool
    decreases ss,
{
    ss.len() == 0 || (frag_stmt_ok(ss[0]) && frag_stmts_ok(ss.drop_first()))
}

/// A pattern token that only constrains the kind.
pub open spec fn kind_tok(kind: Token) -> SpecTok {
    SpecTok { kind: kind, text: Seq::<char>::empty(), offset: 0 }
}

/// A pattern token for an identifier with the given name.
pub open spec fn ident_tok(name: Seq<char>) -> SpecTok {
    SpecTok { kind: Token::Identifier, text: name, offset: 0 }
}

/// Whether a real token fits a pattern token: kinds agree, and for
/// identifier patterns the text does too. (The parser reads the text of no
/// other token kind in this fragment.)
pub open spec fn tok_fits(t: SpecTok, p: SpecTok) -> bool {
    t.kind == p.kind && (p.kind == Token::Identifier ==> t.text == p.text)
}

/// Whether the tokens from `pos` on start with the given pattern.
pub open spec fn pattern_at(toks: Seq<SpecTok>, pos: int, pat: Seq<SpecTok>) -> bool {
    0 <= pos && pos + pat.len() <= toks.len() && (forall|k: int|
        0 <= k < pat.len() ==> tok_fits(toks[pos + k], #[trigger] pat[k]))
}

/// The printed name of a fragment condition.
pub open spec fn cond_name(e: SpecExpr) -> Seq<char> {
    match e {
        SpecExpr::Identifier(name) => name,
        _ => Seq::<char>::empty(),
    }
}

/// The token form of one printed fragment statement, from its keyword to
/// its closing brace. The newline that the printer emits after the
/// statement belongs to the surrounding statement list.
pub open spec fn stmt_pattern(s: SpecStmt) -> Seq<SpecTok>
    decreases s, 1int,
{
    match s {
        SpecStmt::If { condition, then_branch, else_branch } => seq![
            kind_tok(Token::If),
            kind_tok(Token::LParen),
            ident_tok(cond_name(condition)),
            kind_tok(Token::RParen),
        ] + block_pattern(then_branch) + seq![kind_tok(Token::Else)] + block_pattern(else_branch),
        SpecStmt::While { condition, body } => seq![
            kind_tok(Token::While),
            kind_tok(Token::LParen),
            ident_tok(cond_name(condition)),
            kind_tok(Token::RParen),
        ] + block_pattern(body),
        SpecStmt::For { init, condition, update, body } => seq![
            kind_tok(Token::For),
            kind_tok(Token::LParen),
            ident_tok(cond_name(init)),
            kind_tok(Token::Semicolon),
            ident_tok(cond_name(condition)),
            kind_tok(Token::Semicolon),
            ident_tok(cond_name(update)),
            kind_tok(Token::RParen),
        ] + block_pattern(body),
        _ => Seq::<SpecTok>::empty(),
    }
}

/// The token form of the interior of a printed statement list, as a block
/// or the top level consumes it: a newline, then the first statement, then
/// the rest. The trailing newline of the last statement is included.
pub open spec fn rep_pattern(ss: Seq<SpecStmt>) -> Seq<SpecTok>
    decreases ss, 0int,
{
    if ss.len() == 0 {
        seq![kind_tok(Token::Newline)]
    } else {
        seq![kind_tok(Token::Newline)] + stmt_pattern(ss[0]) + rep_pattern(ss.drop_first())
    }
}

/// The token form of a printed block: `{`, a newline, the statements each
/// followed by their newline, and `}`.
pub open spec fn block_pattern(ss: Seq<SpecStmt>) -> Seq<SpecTok>
    decreases ss, 2int,
{
    seq![kind_tok(Token::LBrace)] + rep_pattern(ss) + seq![kind_tok(Token::RBrace)]
}

/// The token form of a whole printed fragment program: the first statement,
/// then each further statement behind its newline separator, and a final
/// newline.
pub open spec fn program_pattern(ss: Seq<SpecStmt>) -> Seq<SpecTok> {
    if ss.len() == 0 {
        Seq::<SpecTok>::empty()
    } else {
        stmt_pattern(ss[0]) + rep_pattern(ss.drop_first())
    }
}

/// A pattern match of a concatenation splits into matches of the parts.
proof fn lemma_pattern_split(toks: Seq<SpecTok>, pos: int, a: Seq<SpecTok>, b: Seq<SpecTok>)
    requires
        pattern_at(toks, pos, a + b),
    ensures
        pattern_at(toks, pos, a),
        pattern_at(toks, pos + a.len(), b),
{
    assert forall|k: int| 0 <= k < a.len() implies tok_fits(toks[pos + k], #[trigger] a[k]) by {
        assert((a + b)[k] == a[k]);
        assert(tok_fits(toks[pos + k], (a + b)[k]));
    }
    assert forall|k: int|
        0 <= k < b.len() implies tok_fits(toks[pos + a.len() + k], #[trigger] b[k]) by {
        assert((a + b)[a.len() + k] == b[k]);
        assert(tok_fits(toks[pos + (a.len() + k)], (a + b)[a.len() + k]));
    }
}

/// An identifier token followed by anything but `+`/`-` parses as exactly
/// that identifier expression.
proof fn lemma_ident_expr_reparse(toks: Seq<SpecTok>, src: Seq<char>, pos: int, name: Seq<char>)
    requires
        0 <= pos < toks.len(),
        toks[pos].kind == Token::Identifier,
        toks[pos].text == name,
        sp_peek(toks, pos + 1) != Token::Plus,
        sp_peek(toks, pos + 1) != Token::Minus,
    ensures
        sp_parse_expr(toks, src, pos) == (pos + 1, Seq::<SpecDiag>::empty(), Some(
            SpecExpr::Identifier(name),
        )),
{
}

/// Parsing one fragment statement from its token form yields that
/// statement, consumes exactly its pattern, and reports nothing.
#[verifier::rlimit(100)]
#[verifier::spinoff_prover]
proof fn lemma_stmt_reparse(toks: Seq<SpecTok>, src: Seq<char>, pos: int, s: SpecStmt)
    requires
        frag_stmt_ok(s),
        pattern_at(toks, pos, stmt_pattern(s)),
    ensures
        sp_parse_stmt(toks, src, pos) == (
            pos + stmt_pattern(s).len(),
            Seq::<SpecDiag>::empty(),
            Some(s),
        ),
    decreases s, 1int,
{
    match s {
        SpecStmt::If { condition, then_branch, else_branch } => {
            let head = seq![
                kind_tok(Token::If),
                kind_tok(Token::LParen),
                ident_tok(cond_name(condition)),
                kind_tok(Token::RParen),
            ];
            let tb = block_pattern(then_branch);
            let eb = block_pattern(else_branch);
            lemma_pattern_split(toks, pos, head + tb + seq![kind_tok(Token::Else)], eb);
            lemma_pattern_split(toks, pos, head + tb, seq![kind_tok(Token::Else)]);
            lemma_pattern_split(toks, pos, head, tb);
            assert(toks[pos].kind == Token::If) by {
                assert(tok_fits(toks[pos + 0], head[0]));
            }
            assert(toks[pos + 1].kind == Token::LParen) by {
                assert(tok_fits(toks[pos + 1], head[1]));
            }
            assert(toks[pos + 2].kind == Token::Identifier && toks[pos + 2].text == cond_name(
                condition,
            )) by {
                assert(tok_fits(toks[pos + 2], head[2]));
            }
            assert(toks[pos + 3].kind == Token::RParen) by {
                assert(tok_fits(toks[pos + 3], head[3]));
            }
            assert(toks[pos + 4].kind == Token::LBrace) by {
                assert(tok_fits(toks[pos + 4], tb[0]));
                assert(tb[0] == kind_tok(Token::LBrace)) by {
                    assert(tb == seq![kind_tok(Token::LBrace)] + rep_pattern(then_branch) + seq![
                        kind_tok(Token::RBrace),
                    ]);
                }
            }
            lemma_ident_expr_reparse(toks, src, pos + 2, cond_name(condition));
            lemma_block_reparse(toks, src, pos + 4, then_branch);
            let after_tb = pos + 4 + tb.len();
            assert(toks[after_tb].kind == Token::Else) by {
                assert(tok_fits(toks[(pos + (head + tb).len()) + 0], seq![
                    kind_tok(Token::Else),
                ][0]));
            }
            let after_else = after_tb + 1;
            assert(pattern_at(toks, after_else, eb));
            assert(toks[after_else].kind == Token::LBrace) by {
                assert(tok_fits(toks[after_else + 0], eb[0]));
                assert(eb == seq![kind_tok(Token::LBrace)] + rep_pattern(else_branch) + seq![
                    kind_tok(Token::RBrace),
                ]);
            }
            lemma_block_reparse(toks, src, after_else, else_branch);
            assert(sp_progress(pos, pos + 4) == pos + 4);
            assert(sp_progress(pos, after_else) == after_else);
            assert(Seq::<SpecDiag>::empty() + Seq::<SpecDiag>::empty() + Seq::<
                SpecDiag,
            >::empty() =~= Seq::<SpecDiag>::empty());
            assert(stmt_pattern(s).len() == 4 + tb.len() + 1 + eb.len());
        },
        SpecStmt::While { condition, body } => {
            let head = seq![
                kind_tok(Token::While),
                kind_tok(Token::LParen),
                ident_tok(cond_name(condition)),
                kind_tok(Token::RParen),
            ];
            let bp = block_pattern(body);
            lemma_pattern_split(toks, pos, head, bp);
            assert(toks[pos].kind == Token::While) by {
                assert(tok_fits(toks[pos + 0], head[0]));
            }
            assert(toks[pos + 1].kind == Token::LParen) by {
                assert(tok_fits(toks[pos + 1], head[1]));
            }
            assert(toks[pos + 2].kind == Token::Identifier && toks[pos + 2].text == cond_name(
                condition,
            )) by {
                assert(tok_fits(toks[pos + 2], head[2]));
            }
            assert(toks[pos + 3].kind == Token::RParen) by {
                assert(tok_fits(toks[pos + 3], head[3]));
            }
            lemma_ident_expr_reparse(toks, src, pos + 2, cond_name(condition));
            lemma_block_reparse(toks, src, pos + 4, body);
            assert(sp_progress(pos, pos + 4) == pos + 4);
            assert(Seq::<SpecDiag>::empty() + Seq::<SpecDiag>::empty() =~= Seq::<
                SpecDiag,
            >::empty());
            assert(stmt_pattern(s).len() == 4 + bp.len());
        },
        SpecStmt::For { init, condition, update, body } => {
            let head = seq![
                kind_tok(Token::For),
                kind_tok(Token::LParen),
                ident_tok(cond_name(init)),
                kind_tok(Token::Semicolon),
                ident_tok(cond_name(condition)),
                kind_tok(Token::Semicolon),
                ident_tok(cond_name(update)),
                kind_tok(Token::RParen),
            ];
            let bp = block_pattern(body);
            lemma_pattern_split(toks, pos, head, bp);
            assert(toks[pos].kind == Token::For) by {
                assert(tok_fits(toks[pos + 0], head[0]));
            }
            assert(toks[pos + 1].kind == Token::LParen) by {
                assert(tok_fits(toks[pos + 1], head[1]));
            }
            assert(toks[pos + 2].kind == Token::Identifier && toks[pos + 2].text == cond_name(
                init,
            )) by {
                assert(tok_fits(toks[pos + 2], head[2]));
            }
            assert(toks[pos + 3].kind == Token::Semicolon) by {
                assert(tok_fits(toks[pos + 3], head[3]));
            }
            assert(toks[pos + 4].kind == Token::Identifier && toks[pos + 4].text == cond_name(
                condition,
            )) by {
                assert(tok_fits(toks[pos + 4], head[4]));
            }
            assert(toks[pos + 5].kind == Token::Semicolon) by {
                assert(tok_fits(toks[pos + 5], head[5]));
            }
            assert(toks[pos + 6].kind == Token::Identifier && toks[pos + 6].text == cond_name(
                update,
            )) by {
                assert(tok_fits(toks[pos + 6], head[6]));
            }
            assert(toks[pos + 7].kind == Token::RParen) by {
                assert(tok_fits(toks[pos + 7], head[7]));
            }
            lemma_ident_expr_reparse(toks, src, pos + 2, cond_name(init));
            lemma_ident_expr_reparse(toks, src, pos + 4, cond_name(condition));
            lemma_ident_expr_reparse(toks, src, pos + 6, cond_name(update));
            lemma_block_reparse(toks, src, pos + 8, body);
            assert(sp_progress(pos, pos + 8) == pos + 8);
            assert(Seq::<SpecDiag>::empty() + Seq::<SpecDiag>::empty() + Seq::<
                SpecDiag,
            >::empty() + Seq::<SpecDiag>::empty() =~= Seq::<SpecDiag>::empty());
            assert(stmt_pattern(s).len() == 8 + bp.len());
        },
        _ => {
            assert(false);
        },
    }
}

/// Parsing a fragment block from its token form yields its statements,
/// consumes exactly its pattern, and reports nothing.
#[verifier::spinoff_prover]
proof fn lemma_block_reparse(toks: Seq<SpecTok>, src: Seq<char>, pos: int, ss: Seq<SpecStmt>)
    requires
        frag_stmts_ok(ss),
        pattern_at(toks, pos, block_pattern(ss)),
    ensures
        sp_parse_block(toks, src, pos) == (
            pos + block_pattern(ss).len(),
            Seq::<SpecDiag>::empty(),
            ss,
        ),
    decreases ss, 2int,
{
    let rp = rep_pattern(ss);
    lemma_pattern_split(toks, pos, seq![kind_tok(Token::LBrace)] + rp, seq![
        kind_tok(Token::RBrace),
    ]);
    lemma_pattern_split(toks, pos, seq![kind_tok(Token::LBrace)], rp);
    assert(toks[pos].kind == Token::LBrace) by {
        assert(tok_fits(toks[pos + 0], seq![kind_tok(Token::LBrace)][0]));
    }
    let after_items = pos + 1 + rp.len();
    assert(toks[after_items].kind == Token::RBrace) by {
        assert(tok_fits(toks[(pos + (seq![kind_tok(Token::LBrace)] + rp).len()) + 0], seq![
            kind_tok(Token::RBrace),
        ][0]));
    }
    lemma_items_reparse(toks, src, pos + 1, ss);
    assert(Seq::<SpecDiag>::empty() + Seq::<SpecDiag>::empty() =~= Seq::<SpecDiag>::empty());
    assert(block_pattern(ss).len() == 1 + rp.len() + 1);
}

/// The statement-collecting loop of a block consumes its newline-separated
/// statements and stops at the closing brace.
#[verifier::rlimit(100)]
#[verifier::spinoff_prover]
proof fn lemma_items_reparse(toks: Seq<SpecTok>, src: Seq<char>, pos: int, ss: Seq<SpecStmt>)
    requires
        frag_stmts_ok(ss),
        pattern_at(toks, pos, rep_pattern(ss)),
        pos + rep_pattern(ss).len() < toks.len(),
        toks[pos + rep_pattern(ss).len()].kind == Token::RBrace,
    ensures
        sp_block_items(toks, src, pos) == (
            pos + rep_pattern(ss).len(),
            Seq::<SpecDiag>::empty(),
            ss,
        ),
    decreases ss, 1int,
{
    assert(toks[pos].kind == Token::Newline) by {
        assert(tok_fits(toks[pos + 0], rep_pattern(ss)[0]));
        if ss.len() > 0 {
            assert(rep_pattern(ss)[0] == (seq![kind_tok(Token::Newline)] + stmt_pattern(ss[0])
                + rep_pattern(ss.drop_first()))[0]);
        }
    }
    reveal_with_fuel(sp_skip_newlines, 3);
    assert(0 <= pos < toks.len());
    assert(sp_peek(toks, pos) == Token::Newline);
    if ss.len() == 0 {
        assert(toks[pos + 1].kind == Token::RBrace);
        assert(sp_peek(toks, pos + 1) == Token::RBrace);
        assert(sp_skip_newlines(toks, pos) == pos + 1);
    } else {
        let sp = stmt_pattern(ss[0]);
        let rest = rep_pattern(ss.drop_first());
        lemma_pattern_split(toks, pos, seq![kind_tok(Token::Newline)] + sp, rest);
        lemma_pattern_split(toks, pos, seq![kind_tok(Token::Newline)], sp);
        assert(frag_stmt_ok(ss[0]));
        lemma_stmt_head_kind(toks, pos + 1, ss[0]);
        assert(sp_peek(toks, pos + 1) != Token::Newline);
        assert(sp_skip_newlines(toks, pos) == pos + 1);
        lemma_stmt_reparse(toks, src, pos + 1, ss[0]);
        let after_stmt = pos + 1 + sp.len();
        assert(sp_progress(pos, after_stmt) == after_stmt);
        assert(pattern_at(toks, after_stmt, rest));
        assert(after_stmt + rest.len() == pos + rep_pattern(ss).len());
        lemma_items_reparse(toks, src, after_stmt, ss.drop_first());
        assert(Seq::<SpecDiag>::empty() + Seq::<SpecDiag>::empty() =~= Seq::<SpecDiag>::empty());
        assert(seq![ss[0]] + ss.drop_first() =~= ss);
    }
}

/// A fragment statement's token form starts with its control keyword, so
/// the cursor under it is neither a newline nor a closing brace nor the
/// end of input.
proof fn lemma_stmt_head_kind(toks: Seq<SpecTok>, pos: int, s: SpecStmt)
    requires
        frag_stmt_ok(s),
        pattern_at(toks, pos, stmt_pattern(s)),
    ensures
        toks[pos].kind == Token::If || toks[pos].kind == Token::While || toks[pos].kind
            == Token::For,
        pos < toks.len(),
        stmt_pattern(s).len() > 0,
{
    match s {
        SpecStmt::If { condition, then_branch, else_branch } => {
            assert(tok_fits(toks[pos + 0], stmt_pattern(s)[0]));
            assert(stmt_pattern(s)[0] == kind_tok(Token::If));
        },
        SpecStmt::While { condition, body } => {
            assert(tok_fits(toks[pos + 0], stmt_pattern(s)[0]));
            assert(stmt_pattern(s)[0] == kind_tok(Token::While));
        },
        SpecStmt::For { init, condition, update, body } => {
            assert(tok_fits(toks[pos + 0], stmt_pattern(s)[0]));
            assert(stmt_pattern(s)[0] == kind_tok(Token::For));
        },
        _ => {
            assert(false);
        },
    }
}

/// The top-level driver consumes the newline-separated statements to the
/// end of the input.
#[verifier::rlimit(100)]
#[verifier::spinoff_prover]
proof fn lemma_top_reparse(toks: Seq<SpecTok>, src: Seq<char>, pos: int, ss: Seq<SpecStmt>)
    requires
        frag_stmts_ok(ss),
        pattern_at(toks, pos, rep_pattern(ss)),
        pos + rep_pattern(ss).len() == toks.len(),
    ensures
        sp_program_items(toks, src, pos) == (toks.len() as int, Seq::<SpecDiag>::empty(), ss),
    decreases ss,
{
    assert(toks[pos].kind == Token::Newline) by {
        assert(tok_fits(toks[pos + 0], rep_pattern(ss)[0]));
        if ss.len() > 0 {
            assert(rep_pattern(ss)[0] == (seq![kind_tok(Token::Newline)] + stmt_pattern(ss[0])
                + rep_pattern(ss.drop_first()))[0]);
        }
    }
    reveal_with_fuel(sp_skip_newlines, 3);
    assert(0 <= pos < toks.len());
    assert(sp_peek(toks, pos) == Token::Newline);
    if ss.len() == 0 {
        assert(pos + 1 == toks.len());
        assert(sp_peek(toks, pos + 1) == Token::Error);
        assert(sp_skip_newlines(toks, pos) == pos + 1);
    } else {
        let sp = stmt_pattern(ss[0]);
        let rest = rep_pattern(ss.drop_first());
        lemma_pattern_split(toks, pos, seq![kind_tok(Token::Newline)] + sp, rest);
        lemma_pattern_split(toks, pos, seq![kind_tok(Token::Newline)], sp);
        lemma_stmt_head_kind(toks, pos + 1, ss[0]);
        assert(sp_peek(toks, pos + 1) != Token::Newline);
        assert(sp_skip_newlines(toks, pos) == pos + 1);
        lemma_stmt_reparse(toks, src, pos + 1, ss[0]);
        let after_stmt = pos + 1 + sp.len();
        assert(sp_progress(pos, after_stmt) == after_stmt);
        lemma_top_reparse(toks, src, after_stmt, ss.drop_first());
        assert(Seq::<SpecDiag>::empty() + Seq::<SpecDiag>::empty() =~= Seq::<SpecDiag>::empty());
        assert(seq![ss[0]] + ss.drop_first() =~= ss);
    }
}

/// Re-parsing a printed fragment AST yields a structurally equal AST with
/// zero diagnostics: for any token sequence of exactly the shape the
/// printed text of the fragment tokenizes to, the parse result is the
/// original statement list.
#[verifier::rlimit(100)]
#[verifier::spinoff_prover]
pub proof fn lemma_fragment_print_reparse(toks: Seq<SpecTok>, src: Seq<char>, ss: Seq<SpecStmt>)
    requires
        frag_stmts_ok(ss),
        toks.len() == program_pattern(ss).len(),
        pattern_at(toks, 0, program_pattern(ss)),
    ensures
        sp_program_items(toks, src, 0).2 =~= ss,
        sp_program_items(toks, src, 0).1 =~= Seq::<SpecDiag>::empty(),
{
    if ss.len() == 0 {
    } else {
        let sp = stmt_pattern(ss[0]);
        let rest = rep_pattern(ss.drop_first());
        lemma_pattern_split(toks, 0, sp, rest);
        lemma_stmt_head_kind(toks, 0, ss[0]);
        assert(sp_skip_newlines(toks, 0) == 0);
        lemma_stmt_reparse(toks, src, 0, ss[0]);
        assert(sp_progress(0, sp.len() as int) == sp.len());
        lemma_top_reparse(toks, src, sp.len() as int, ss.drop_first());
        assert(Seq::<SpecDiag>::empty() + Seq::<SpecDiag>::empty() =~= Seq::<SpecDiag>::empty());
        assert(seq![ss[0]] + ss.drop_first() =~= ss);
    }
}

} // verus!
