//! The tokenizer: one eager left-to-right pass over the source text,
//! producing the finite ordered sequence of `(kind, lexeme, offset)`
//! triples. Whitespace runs and `//` line comments are skipped; newlines
//! are significant and preserved; input that matches no pattern becomes an
//! `Error` token covering the unmatched run, so tokenization never fails.
//!
//! Offsets are positions in the character sequence of the source.

use vstd::prelude::*;
use crate::lexer::token::{
    Token, SpecTok, is_letter_char, is_digit_char, is_word_start_char, is_word_char, is_skip_char,
    spec_single_char_token, spec_word_kind, letter_char, digit_char_test, word_start_char,
    word_char, skip_char, single_char_token, word_kind,
};

verus! {

/// The end of a run of word characters starting at `i`: the first position
/// at or after `i` that is past the end or holds a non-word character.
pub open spec fn word_end(s: Seq<char>, i: int) -> int
    decreases s.len() - i,
{
    if i < s.len() && is_word_char(s[i]) {
        word_end(s, i + 1)
    } else {
        i
    }
}

/// The end of a run of decimal digits starting at `i`.
pub open spec fn digit_run_end(s: Seq<char>, i: int) -> int
    decreases s.len() - i,
{
    if i < s.len() && is_digit_char(s[i]) {
        digit_run_end(s, i + 1)
    } else {
        i
    }
}

/// The position of the newline that ends a comment scanned from `i`, or the
/// end of the input. The newline itself is not part of the comment.
pub open spec fn comment_line_end(s: Seq<char>, i: int) -> int
    decreases s.len() - i,
{
    if i < s.len() && s[i] != '\n' {
        comment_line_end(s, i + 1)
    } else {
        i
    }
}

/// Whether some lexical pattern (skipped or token-producing) starts at `i`.
pub open spec fn spec_starts_token(s: Seq<char>, i: int) -> bool {
    0 <= i < s.len() && {
        let c = s[i];
        is_skip_char(c) || c == '\n' || is_word_start_char(c) || is_digit_char(c)
            || spec_single_char_token(c) is Some || (i + 1 < s.len() && ((c == '&' && s[i + 1]
            == '&') || (c == '|' && s[i + 1] == '|')))
    }
}

/// The end of a run of characters, starting at `i`, at which no lexical
/// pattern can start. Such a run becomes a single `Error` token.
pub open spec fn error_run_end(s: Seq<char>, i: int) -> int
    decreases s.len() - i,
{
    if i < s.len() && !spec_starts_token(s, i) {
        error_run_end(s, i + 1)
    } else {
        i
    }
}

pub proof fn lemma_word_end_bounds(s: Seq<char>, i: int)
    requires
        0 <= i <= s.len(),
    ensures
        i <= word_end(s, i) <= s.len(),
    decreases s.len() - i,
{
    if i < s.len() && is_word_char(s[i]) {
        lemma_word_end_bounds(s, i + 1);
    }
}

pub proof fn lemma_digit_run_end_bounds(s: Seq<char>, i: int)
    requires
        0 <= i <= s.len(),
    ensures
        i <= digit_run_end(s, i) <= s.len(),
    decreases s.len() - i,
{
    if i < s.len() && is_digit_char(s[i]) {
        lemma_digit_run_end_bounds(s, i + 1);
    }
}

pub proof fn lemma_comment_line_end_bounds(s: Seq<char>, i: int)
    requires
        0 <= i <= s.len(),
    ensures
        i <= comment_line_end(s, i) <= s.len(),
    decreases s.len() - i,
{
    if i < s.len() && s[i] != '\n' {
        lemma_comment_line_end_bounds(s, i + 1);
    }
}

pub proof fn lemma_error_run_end_bounds(s: Seq<char>, i: int)
    requires
        0 <= i <= s.len(),
    ensures
        i <= error_run_end(s, i) <= s.len(),
    decreases s.len() - i,
{
    if i < s.len() && !spec_starts_token(s, i) {
        lemma_error_run_end_bounds(s, i + 1);
    }
}

/// The token sequence produced from position `i` onward.
pub open spec fn spec_tokens_from(s: Seq<char>, i: int) -> Seq<SpecTok>
    decreases s.len() - i,
{
    if i < 0 || i >= s.len() {
        Seq::<SpecTok>::empty()
    } else {
        let c = s[i];
        if is_skip_char(c) {
            spec_tokens_from(s, i + 1)
        } else if c == '/' && i + 1 < s.len() && s[i + 1] == '/' {
            proof {
                lemma_comment_line_end_bounds(s, i + 2);
            }
            spec_tokens_from(s, comment_line_end(s, i + 2))
        } else if c == '\n' {
            seq![
                SpecTok { kind: Token::Newline, text: s.subrange(i, i + 1), offset: i },
            ] + spec_tokens_from(s, i + 1)
        } else if is_word_start_char(c) {
            let j = word_end(s, i + 1);
            proof {
                lemma_word_end_bounds(s, i + 1);
            }
            seq![
                SpecTok { kind: spec_word_kind(s.subrange(i, j)), text: s.subrange(i, j), offset: i },
            ] + spec_tokens_from(s, j)
        } else if is_digit_char(c) {
            let j = digit_run_end(s, i + 1);
            proof {
                lemma_digit_run_end_bounds(s, i + 1);
            }
            if j < s.len() && is_letter_char(s[j]) {
                let k = word_end(s, j + 1);
                proof {
                    lemma_word_end_bounds(s, j + 1);
                }
                seq![
                    SpecTok { kind: Token::Error, text: s.subrange(i, k), offset: i },
                ] + spec_tokens_from(s, k)
            } else {
                seq![
                    SpecTok { kind: Token::Number, text: s.subrange(i, j), offset: i },
                ] + spec_tokens_from(s, j)
            }
        } else if c == '&' && i + 1 < s.len() && s[i + 1] == '&' {
            seq![
                SpecTok { kind: Token::LogicalAnd, text: s.subrange(i, i + 2), offset: i },
            ] + spec_tokens_from(s, i + 2)
        } else if c == '|' && i + 1 < s.len() && s[i + 1] == '|' {
            seq![
                SpecTok { kind: Token::LogicalOr, text: s.subrange(i, i + 2), offset: i },
            ] + spec_tokens_from(s, i + 2)
        } else {
            match spec_single_char_token(c) {
                Some(kind) => seq![
                    SpecTok { kind: kind, text: s.subrange(i, i + 1), offset: i },
                ] + spec_tokens_from(s, i + 1),
                None => {
                    let j = error_run_end(s, i + 1);
                    proof {
                        lemma_error_run_end_bounds(s, i + 1);
                    }
                    seq![
                        SpecTok { kind: Token::Error, text: s.subrange(i, j), offset: i },
                    ] + spec_tokens_from(s, j)
                },
            }
        }
    }
}

/// The full token sequence of a source text.
pub open spec fn spec_tokenize(s: Seq<char>) -> Seq<SpecTok> {
    spec_tokens_from(s, 0)
}

/// The mathematical image of one produced token triple.
pub open spec fn spec_tok_of(t: (Token, String, usize)) -> SpecTok {
    SpecTok { kind: t.0, text: t.1@, offset: t.2 as int }
}

/// The mathematical image of a produced token sequence.
pub open spec fn spec_toks_of(ts: Seq<(Token, String, usize)>) -> Seq<SpecTok> {
    ts.map_values(|t: (Token, String, usize)| spec_tok_of(t))
}

proof fn lemma_toks_of_push(ts: Seq<(Token, String, usize)>, x: (Token, String, usize))
    ensures
        spec_toks_of(ts.push(x)) =~= spec_toks_of(ts).push(spec_tok_of(x)),
{
}

fn scan_word_end(src: &str, from: usize) -> (j: usize)
    requires
        from <= src@.len(),
    ensures
        j == word_end(src@, from as int),
        from <= j <= src@.len(),
    decreases src@.len() - from,
{
    let n = src.unicode_len();
    let mut j = from;
    while j < n && word_char(src.get_char(j))
        invariant
            from <= j <= n,
            n == src@.len(),
            word_end(src@, from as int) == word_end(src@, j as int),
        decreases n - j,
    {
        j += 1;
    }
    j
}

fn scan_digit_run_end(src: &str, from: usize) -> (j: usize)
    requires
        from <= src@.len(),
    ensures
        j == digit_run_end(src@, from as int),
        from <= j <= src@.len(),
{
    let n = src.unicode_len();
    let mut j = from;
    while j < n && digit_char_test(src.get_char(j))
        invariant
            from <= j <= n,
            n == src@.len(),
            digit_run_end(src@, from as int) == digit_run_end(src@, j as int),
        decreases n - j,
    {
        j += 1;
    }
    j
}

fn scan_comment_line_end(src: &str, from: usize) -> (j: usize)
    requires
        from <= src@.len(),
    ensures
        j == comment_line_end(src@, from as int),
        from <= j <= src@.len(),
{
    let n = src.unicode_len();
    let mut j = from;
    while j < n && src.get_char(j) != '\n'
        invariant
            from <= j <= n,
            n == src@.len(),
            comment_line_end(src@, from as int) == comment_line_end(src@, j as int),
        decreases n - j,
    {
        j += 1;
    }
    j
}

/// Whether some lexical pattern starts at position `i` of `src`.
fn starts_token_at(src: &str, i: usize) -> (r: bool)
    requires
        i < src@.len(),
    ensures
        r == spec_starts_token(src@, i as int),
{
    let n = src.unicode_len();
    let c = src.get_char(i);
    skip_char(c) || c == '\n' || word_start_char(c) || digit_char_test(c) || single_char_token(
        c,
    ).is_some() || (i + 1 < n && ((c == '&' && src.get_char(i + 1) == '&') || (c == '|'
        && src.get_char(i + 1) == '|')))
}

fn scan_error_run_end(src: &str, from: usize) -> (j: usize)
    requires
        from <= src@.len(),
    ensures
        j == error_run_end(src@, from as int),
        from <= j <= src@.len(),
{
    let n = src.unicode_len();
    let mut j = from;
    while j < n && !starts_token_at(src, j)
        invariant
            from <= j <= n,
            n == src@.len(),
            error_run_end(src@, from as int) == error_run_end(src@, j as int),
        decreases n - j,
    {
        j += 1;
    }
    j
}

/// Every character of a word run is a word character.
proof fn lemma_word_end_run(s: Seq<char>, i: int)
    requires
        0 <= i,
    ensures
        forall|k: int| i <= k < word_end(s, i) ==> is_word_char(#[trigger] s[k]),
    decreases s.len() - i,
{
    if i < s.len() && is_word_char(s[i]) {
        lemma_word_end_run(s, i + 1);
    }
}

/// Every character of a digit run is a digit.
proof fn lemma_digit_run_end_run(s: Seq<char>, i: int)
    requires
        0 <= i,
    ensures
        forall|k: int| i <= k < digit_run_end(s, i) ==> is_digit_char(#[trigger] s[k]),
    decreases s.len() - i,
{
    if i < s.len() && is_digit_char(s[i]) {
        lemma_digit_run_end_run(s, i + 1);
    }
}

/// No lexical pattern starts inside an error run.
proof fn lemma_error_run_end_run(s: Seq<char>, i: int)
    requires
        0 <= i,
    ensures
        forall|k: int| i <= k < error_run_end(s, i) ==> !#[trigger] spec_starts_token(s, k),
    decreases s.len() - i,
{
    if i < s.len() && !spec_starts_token(s, i) {
        lemma_error_run_end_run(s, i + 1);
    }
}

/// A run of digits ends exactly where the digits end.
proof fn lemma_digit_run_end_at(s: Seq<char>, i: int, m: int)
    requires
        0 <= i <= m <= s.len(),
        forall|k: int| i <= k < m ==> is_digit_char(s[k]),
        m == s.len() || !is_digit_char(s[m]),
    ensures
        digit_run_end(s, i) == m,
    decreases m - i,
{
    if i < m {
        lemma_digit_run_end_at(s, i + 1, m);
    }
}

/// A run of word characters ends exactly where the word characters end.
proof fn lemma_word_end_at(s: Seq<char>, i: int, m: int)
    requires
        0 <= i <= m <= s.len(),
        forall|k: int| i <= k < m ==> is_word_char(s[k]),
        m == s.len() || !is_word_char(s[m]),
    ensures
        word_end(s, i) == m,
    decreases m - i,
{
    if i < m {
        lemma_word_end_at(s, i + 1, m);
    }
}

/// A digit run immediately followed by a letter always tokenizes as
/// exactly one `Error` token covering the whole lexeme, never as a number
/// followed by an identifier: the dedicated error pattern has the higher
/// priority. `m` is the position of the first letter; everything before it
/// is a digit, everything after it a word character.
pub proof fn lemma_digit_then_letter_is_single_error(s: Seq<char>, m: int)
    requires
        1 <= m < s.len(),
        forall|k: int| 0 <= k < m ==> is_digit_char(s[k]),
        is_letter_char(s[m]),
        forall|k: int| m < k < s.len() ==> is_word_char(s[k]),
    ensures
        spec_tokenize(s) =~= seq![SpecTok { kind: Token::Error, text: s, offset: 0 }],
{
    assert(is_digit_char(s[0]));
    lemma_digit_run_end_at(s, 1, m);
    lemma_word_end_at(s, m + 1, s.len() as int);
    assert(s.subrange(0, s.len() as int) =~= s);
    assert(spec_tokens_from(s, s.len() as int) =~= Seq::<SpecTok>::empty());
    assert(spec_tokenize(s) =~= seq![
        SpecTok { kind: Token::Error, text: s.subrange(0, s.len() as int), offset: 0 },
    ] + Seq::<SpecTok>::empty());
}

/// The non-skipped portion of the input from position `i` on: whitespace
/// runs and comments are dropped, every other character is kept, in
/// order.
pub open spec fn spec_strip_from(s: Seq<char>, i: int) -> Seq<char>
    decreases s.len() - i,
{
    if i < 0 || i >= s.len() {
        Seq::<char>::empty()
    } else if is_skip_char(s[i]) {
        spec_strip_from(s, i + 1)
    } else if s[i] == '/' && i + 1 < s.len() && s[i + 1] == '/' {
        proof {
            lemma_comment_line_end_bounds(s, i + 2);
        }
        spec_strip_from(s, comment_line_end(s, i + 2))
    } else {
        seq![s[i]] + spec_strip_from(s, i + 1)
    }
}

/// The concatenation of the lexemes of a token sequence, in order.
pub open spec fn spec_lexemes(toks: Seq<SpecTok>) -> Seq<char>
    decreases toks.len(),
{
    if toks.len() == 0 {
        Seq::<char>::empty()
    } else {
        toks[0].text + spec_lexemes(toks.drop_first())
    }
}

proof fn lemma_lexemes_cons(t: SpecTok, rest: Seq<SpecTok>)
    ensures
        spec_lexemes(seq![t] + rest) =~= t.text + spec_lexemes(rest),
{
    assert((seq![t] + rest)[0] == t);
    assert((seq![t] + rest).drop_first() =~= rest);
}

/// A character that stripping keeps: not skipped, and not the start of a
/// comment.
pub open spec fn spec_kept_char_at(s: Seq<char>, k: int) -> bool {
    !is_skip_char(s[k]) && !(s[k] == '/' && k + 1 < s.len() && s[k + 1] == '/')
}

/// Within a run of kept characters, stripping keeps them verbatim.
proof fn lemma_strip_run(s: Seq<char>, i: int, j: int)
    requires
        0 <= i <= j <= s.len(),
        forall|k: int| i <= k < j ==> #[trigger] spec_kept_char_at(s, k),
    ensures
        spec_strip_from(s, i) =~= s.subrange(i, j) + spec_strip_from(s, j),
    decreases j - i,
{
    if i < j {
        assert(spec_kept_char_at(s, i));
        lemma_strip_run(s, i + 1, j);
        assert(s.subrange(i, j) =~= seq![s[i]] + s.subrange(i + 1, j));
    } else {
        assert(s.subrange(i, i) =~= Seq::<char>::empty());
    }
}

/// The concatenation of all lexemes, in token order, equals the input
/// with whitespace and comments removed: every non-skipped character of
/// the input lands in exactly one token, in left-to-right order.
pub proof fn lemma_lexemes_cover_input(s: Seq<char>)
    ensures
        spec_lexemes(spec_tokenize(s)) =~= spec_strip_from(s, 0),
{
    lemma_lexemes_cover_from(s, 0);
}

proof fn lemma_lexemes_cover_from(s: Seq<char>, i: int)
    ensures
        spec_lexemes(spec_tokens_from(s, i)) =~= spec_strip_from(s, i),
    decreases s.len() - i,
{
    if 0 <= i < s.len() {
        let c = s[i];
        if is_skip_char(c) {
            lemma_lexemes_cover_from(s, i + 1);
        } else if c == '/' && i + 1 < s.len() && s[i + 1] == '/' {
            lemma_comment_line_end_bounds(s, i + 2);
            lemma_lexemes_cover_from(s, comment_line_end(s, i + 2));
        } else if c == '\n' {
            lemma_lexemes_cover_from(s, i + 1);
            lemma_lexemes_cons(
                SpecTok { kind: Token::Newline, text: s.subrange(i, i + 1), offset: i },
                spec_tokens_from(s, i + 1),
            );
            assert forall|k: int| i <= k < i + 1 implies #[trigger] spec_kept_char_at(s, k) by {}
            lemma_strip_run(s, i, i + 1);
        } else if is_word_start_char(c) {
            let j = word_end(s, i + 1);
            lemma_word_end_bounds(s, i + 1);
            lemma_word_end_run(s, i + 1);
            lemma_lexemes_cover_from(s, j);
            lemma_lexemes_cons(
                SpecTok {
                    kind: spec_word_kind(s.subrange(i, j)),
                    text: s.subrange(i, j),
                    offset: i,
                },
                spec_tokens_from(s, j),
            );
            assert forall|k: int| i <= k < j implies #[trigger] spec_kept_char_at(s, k) by {
                if k > i {
                    assert(is_word_char(s[k]));
                }
            }
            lemma_strip_run(s, i, j);
        } else if is_digit_char(c) {
            let j = digit_run_end(s, i + 1);
            lemma_digit_run_end_bounds(s, i + 1);
            lemma_digit_run_end_run(s, i + 1);
            if j < s.len() && is_letter_char(s[j]) {
                let k = word_end(s, j + 1);
                lemma_word_end_bounds(s, j + 1);
                lemma_word_end_run(s, j + 1);
                lemma_lexemes_cover_from(s, k);
                lemma_lexemes_cons(
                    SpecTok { kind: Token::Error, text: s.subrange(i, k), offset: i },
                    spec_tokens_from(s, k),
                );
                assert forall|q: int| i <= q < k implies #[trigger] spec_kept_char_at(s, q) by {
                    if q > i && q < j {
                        assert(is_digit_char(s[q]));
                    } else if q > i {
                        if q == j {
                            assert(is_letter_char(s[q]));
                        } else {
                            assert(is_word_char(s[q]));
                        }
                    }
                }
                lemma_strip_run(s, i, k);
            } else {
                lemma_lexemes_cover_from(s, j);
                lemma_lexemes_cons(
                    SpecTok { kind: Token::Number, text: s.subrange(i, j), offset: i },
                    spec_tokens_from(s, j),
                );
                assert forall|q: int| i <= q < j implies #[trigger] spec_kept_char_at(s, q) by {
                    if q > i {
                        assert(is_digit_char(s[q]));
                    }
                }
                lemma_strip_run(s, i, j);
            }
        } else if c == '&' && i + 1 < s.len() && s[i + 1] == '&' {
            lemma_lexemes_cover_from(s, i + 2);
            lemma_lexemes_cons(
                SpecTok { kind: Token::LogicalAnd, text: s.subrange(i, i + 2), offset: i },
                spec_tokens_from(s, i + 2),
            );
            assert forall|k: int| i <= k < i + 2 implies #[trigger] spec_kept_char_at(s, k) by {}
            lemma_strip_run(s, i, i + 2);
        } else if c == '|' && i + 1 < s.len() && s[i + 1] == '|' {
            lemma_lexemes_cover_from(s, i + 2);
            lemma_lexemes_cons(
                SpecTok { kind: Token::LogicalOr, text: s.subrange(i, i + 2), offset: i },
                spec_tokens_from(s, i + 2),
            );
            assert forall|k: int| i <= k < i + 2 implies #[trigger] spec_kept_char_at(s, k) by {}
            lemma_strip_run(s, i, i + 2);
        } else {
            match spec_single_char_token(c) {
                Some(kind) => {
                    lemma_lexemes_cover_from(s, i + 1);
                    lemma_lexemes_cons(
                        SpecTok { kind: kind, text: s.subrange(i, i + 1), offset: i },
                        spec_tokens_from(s, i + 1),
                    );
                    assert forall|k: int| i <= k < i + 1 implies #[trigger] spec_kept_char_at(
                        s,
                        k,
                    ) by {}
                    lemma_strip_run(s, i, i + 1);
                },
                None => {
                    let j = error_run_end(s, i + 1);
                    lemma_error_run_end_bounds(s, i + 1);
                    lemma_error_run_end_run(s, i + 1);
                    lemma_lexemes_cover_from(s, j);
                    lemma_lexemes_cons(
                        SpecTok { kind: Token::Error, text: s.subrange(i, j), offset: i },
                        spec_tokens_from(s, j),
                    );
                    assert forall|k: int| i <= k < j implies #[trigger] spec_kept_char_at(
                        s,
                        k,
                    ) by {
                        if k > i {
                            assert(!spec_starts_token(s, k));
                        }
                    }
                    lemma_strip_run(s, i, j);
                },
            }
        }
    }
}

/// Token offsets are strictly increasing across the sequence, and every
/// token starts inside the input: the sequence is finite, ordered
/// left-to-right, and terminates at end of input.
pub proof fn lemma_token_offsets_monotone(s: Seq<char>)
    ensures
        forall|a: int, b: int|
            0 <= a < b < spec_tokenize(s).len() ==> #[trigger] spec_tokenize(s)[a].offset
                < #[trigger] spec_tokenize(s)[b].offset,
        forall|k: int|
            0 <= k < spec_tokenize(s).len() ==> 0 <= #[trigger] spec_tokenize(s)[k].offset
                < s.len(),
{
    lemma_offsets_from(s, 0);
}

proof fn lemma_offsets_from(s: Seq<char>, i: int)
    ensures
        forall|k: int|
            0 <= k < spec_tokens_from(s, i).len() ==> i <= #[trigger] spec_tokens_from(
                s,
                i,
            )[k].offset < s.len(),
        forall|a: int, b: int|
            0 <= a < b < spec_tokens_from(s, i).len() ==> #[trigger] spec_tokens_from(
                s,
                i,
            )[a].offset < #[trigger] spec_tokens_from(s, i)[b].offset,
    decreases s.len() - i,
{
    if 0 <= i < s.len() {
        let c = s[i];
        if is_skip_char(c) {
            lemma_offsets_from(s, i + 1);
        } else if c == '/' && i + 1 < s.len() && s[i + 1] == '/' {
            lemma_comment_line_end_bounds(s, i + 2);
            lemma_offsets_from(s, comment_line_end(s, i + 2));
        } else {
            let (tok, next) = spec_head_and_next(s, i);
            lemma_word_end_bounds(s, i + 1);
            lemma_digit_run_end_bounds(s, i + 1);
            lemma_error_run_end_bounds(s, i + 1);
            if is_digit_char(c) && digit_run_end(s, i + 1) < s.len() && is_letter_char(
                s[digit_run_end(s, i + 1)],
            ) {
                lemma_word_end_bounds(s, digit_run_end(s, i + 1) + 1);
            }
            assert(i < next <= s.len());
            lemma_offsets_from(s, next);
            let toks = spec_tokens_from(s, i);
            let rest = spec_tokens_from(s, next);
            assert(toks =~= seq![tok] + rest);
            assert forall|k: int| 0 <= k < toks.len() implies i <= #[trigger] toks[k].offset
                < s.len() by {
                if k == 0 {
                } else {
                    assert(toks[k] == rest[k - 1]);
                }
            }
            assert forall|a: int, b: int|
                0 <= a < b < toks.len() implies #[trigger] toks[a].offset < #[trigger] toks[b].offset by {
                assert(toks[b] == rest[b - 1]);
                if a > 0 {
                    assert(toks[a] == rest[a - 1]);
                }
            }
        }
    }
}

/// The first token produced at a non-skipped position `i`, and the
/// position scanning resumes at.
pub open spec fn spec_head_and_next(s: Seq<char>, i: int) -> (SpecTok, int) {
    let c = s[i];
    if c == '\n' {
        (SpecTok { kind: Token::Newline, text: s.subrange(i, i + 1), offset: i }, i + 1)
    } else if is_word_start_char(c) {
        let j = word_end(s, i + 1);
        (
            SpecTok { kind: spec_word_kind(s.subrange(i, j)), text: s.subrange(i, j), offset: i },
            j,
        )
    } else if is_digit_char(c) {
        let j = digit_run_end(s, i + 1);
        if j < s.len() && is_letter_char(s[j]) {
            let k = word_end(s, j + 1);
            (SpecTok { kind: Token::Error, text: s.subrange(i, k), offset: i }, k)
        } else {
            (SpecTok { kind: Token::Number, text: s.subrange(i, j), offset: i }, j)
        }
    } else if c == '&' && i + 1 < s.len() && s[i + 1] == '&' {
        (SpecTok { kind: Token::LogicalAnd, text: s.subrange(i, i + 2), offset: i }, i + 2)
    } else if c == '|' && i + 1 < s.len() && s[i + 1] == '|' {
        (SpecTok { kind: Token::LogicalOr, text: s.subrange(i, i + 2), offset: i }, i + 2)
    } else {
        match spec_single_char_token(c) {
            Some(kind) => (
                SpecTok { kind: kind, text: s.subrange(i, i + 1), offset: i },
                i + 1,
            ),
            None => {
                let j = error_run_end(s, i + 1);
                (SpecTok { kind: Token::Error, text: s.subrange(i, j), offset: i }, j)
            },
        }
    }
}

/// The tokenizer. It owns a copy of the source text and produces the full
/// token sequence in one eager pass.
pub struct Lexer {
    pub input: String,
}

impl Lexer {
    pub fn new(input: &str) -> (r: Lexer)
        ensures
            r.input@ == input@,
    {
        Lexer { input: input.to_owned() }
    }

    /// Produces the ordered, finite token sequence covering every
    /// non-skipped unit of the input: a pure function of the source text.
    pub fn tokenize(&mut self) -> (r: Vec<(Token, String, usize)>)
        ensures
            final(self).input@ == old(self).input@,
            spec_toks_of(r@) == spec_tokenize(old(self).input@),
    {
        let src = self.input.clone();
        let ghost s = src@;
        let n = src.as_str().unicode_len();
        let mut toks: Vec<(Token, String, usize)> = Vec::new();
        let mut i: usize = 0;
        proof {
            assert(spec_toks_of(toks@) =~= Seq::<SpecTok>::empty());
            assert(Seq::<SpecTok>::empty() + spec_tokens_from(s, 0) =~= spec_tokens_from(s, 0));
        }
        while i < n
            invariant
                s == src@,
                n == s.len(),
                i <= n,
                spec_toks_of(toks@) + spec_tokens_from(s, i as int) == spec_tokenize(s),
            decreases n - i,
        {
            let ghost i0 = i as int;
            let c = src.as_str().get_char(i);
            if skip_char(c) {
                i += 1;
            } else if c == '/' && i + 1 < n && src.as_str().get_char(i + 1) == '/' {
                let j = scan_comment_line_end(src.as_str(), i + 2);
                i = j;
            } else if c == '\n' {
                let lexeme = src.as_str().substring_char(i, i + 1).to_owned();
                let ghost x = (Token::Newline, lexeme, i);
                let ghost before = toks@;
                toks.push((Token::Newline, lexeme, i));
                proof {
                    lemma_toks_of_push(before, x);
                    assert(spec_tokens_from(s, i0) =~= seq![spec_tok_of(x)] + spec_tokens_from(
                        s,
                        i0 + 1,
                    ));
                    assert(spec_toks_of(toks@) + spec_tokens_from(s, i0 + 1) =~= spec_tokenize(s));
                }
                i += 1;
            } else if word_start_char(c) {
                let j = scan_word_end(src.as_str(), i + 1);
                let lexeme = src.as_str().substring_char(i, j).to_owned();
                let kind = word_kind(lexeme.as_str());
                let ghost x = (kind, lexeme, i);
                let ghost before = toks@;
                toks.push((kind, lexeme, i));
                proof {
                    lemma_toks_of_push(before, x);
                    assert(spec_tokens_from(s, i0) =~= seq![spec_tok_of(x)] + spec_tokens_from(
                        s,
                        j as int,
                    ));
                    assert(spec_toks_of(toks@) + spec_tokens_from(s, j as int) =~= spec_tokenize(
                        s,
                    ));
                }
                i = j;
            } else if digit_char_test(c) {
                let j = scan_digit_run_end(src.as_str(), i + 1);
                if j < n && letter_char(src.as_str().get_char(j)) {
                    let k = scan_word_end(src.as_str(), j + 1);
                    let lexeme = src.as_str().substring_char(i, k).to_owned();
                    let ghost x = (Token::Error, lexeme, i);
                    let ghost before = toks@;
                    toks.push((Token::Error, lexeme, i));
                    proof {
                        lemma_toks_of_push(before, x);
                        assert(spec_tokens_from(s, i0) =~= seq![spec_tok_of(x)]
                            + spec_tokens_from(s, k as int));
                        assert(spec_toks_of(toks@) + spec_tokens_from(s, k as int)
                            =~= spec_tokenize(s));
                    }
                    i = k;
                } else {
                    let lexeme = src.as_str().substring_char(i, j).to_owned();
                    let ghost x = (Token::Number, lexeme, i);
                    let ghost before = toks@;
                    toks.push((Token::Number, lexeme, i));
                    proof {
                        lemma_toks_of_push(before, x);
                        assert(spec_tokens_from(s, i0) =~= seq![spec_tok_of(x)]
                            + spec_tokens_from(s, j as int));
                        assert(spec_toks_of(toks@) + spec_tokens_from(s, j as int)
                            =~= spec_tokenize(s));
                    }
                    i = j;
                }
            } else if c == '&' && i + 1 < n && src.as_str().get_char(i + 1) == '&' {
                let lexeme = src.as_str().substring_char(i, i + 2).to_owned();
                let ghost x = (Token::LogicalAnd, lexeme, i);
                let ghost before = toks@;
                toks.push((Token::LogicalAnd, lexeme, i));
                proof {
                    lemma_toks_of_push(before, x);
                    assert(spec_tokens_from(s, i0) =~= seq![spec_tok_of(x)] + spec_tokens_from(
                        s,
                        i0 + 2,
                    ));
                    assert(spec_toks_of(toks@) + spec_tokens_from(s, i0 + 2) =~= spec_tokenize(s));
                }
                i += 2;
            } else if c == '|' && i + 1 < n && src.as_str().get_char(i + 1) == '|' {
                let lexeme = src.as_str().substring_char(i, i + 2).to_owned();
                let ghost x = (Token::LogicalOr, lexeme, i);
                let ghost before = toks@;
                toks.push((Token::LogicalOr, lexeme, i));
                proof {
                    lemma_toks_of_push(before, x);
                    assert(spec_tokens_from(s, i0) =~= seq![spec_tok_of(x)] + spec_tokens_from(
                        s,
                        i0 + 2,
                    ));
                    assert(spec_toks_of(toks@) + spec_tokens_from(s, i0 + 2) =~= spec_tokenize(s));
                }
                i += 2;
            } else {
                let maybe_kind = single_char_token(c);
                if let Some(kind) = maybe_kind {
                    let lexeme = src.as_str().substring_char(i, i + 1).to_owned();
                    let ghost x = (kind, lexeme, i);
                    let ghost before = toks@;
                    toks.push((kind, lexeme, i));
                    proof {
                        lemma_toks_of_push(before, x);
                        assert(spec_tokens_from(s, i0) =~= seq![spec_tok_of(x)]
                            + spec_tokens_from(s, i0 + 1));
                        assert(spec_toks_of(toks@) + spec_tokens_from(s, i0 + 1)
                            =~= spec_tokenize(s));
                    }
                    i += 1;
                } else {
                    let j = scan_error_run_end(src.as_str(), i + 1);
                    let lexeme = src.as_str().substring_char(i, j).to_owned();
                    let ghost x = (Token::Error, lexeme, i);
                    let ghost before = toks@;
                    toks.push((Token::Error, lexeme, i));
                    proof {
                        lemma_toks_of_push(before, x);
                        assert(spec_tokens_from(s, i0) =~= seq![spec_tok_of(x)]
                            + spec_tokens_from(s, j as int));
                        assert(spec_toks_of(toks@) + spec_tokens_from(s, j as int)
                            =~= spec_tokenize(s));
                    }
                    i = j;
                }
            }
        }
        proof {
            assert(spec_tokens_from(s, i as int) =~= Seq::<SpecTok>::empty());
            assert(spec_toks_of(toks@) =~= spec_tokenize(s));
        }
        toks
    }
}

} // verus!
