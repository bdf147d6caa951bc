//! The token model: the kind enumeration, character classes, and the
//! classification of word lexemes into keywords or identifiers.
//!
//! Matching policy: literal keyword/operator/punctuation lexemes take
//! precedence over the generic identifier pattern; a digit run immediately
//! followed by a letter is a dedicated, higher-priority error pattern; any
//! other unmatched input also becomes an `Error` token, so tokenization
//! never fails.

use vstd::prelude::*;
use crate::text::str_eq;

verus! {

/// The kind of a lexical unit.
///
/// `Comment` and `Whitespace` are skipped input classes: the tokenizer never
/// emits them, but they are part of the lexical vocabulary.
#[derive(Debug, Clone, Copy, PartialEq, Eq, Structural, Default)]
pub enum Token {
    MoveUp,
    MoveDown,
    MoveLeft,
    MoveRight,
    Jump,
    Attack,
    Defend,
    If,
    Else,
    While,
    For,
    Plus,
    Minus,
    Mul,
    Div,
    LParen,
    RParen,
    LBrace,
    RBrace,
    Semicolon,
    LogicalAnd,
    LogicalOr,
    LogicalNot,
    Identifier,
    Number,
    Newline,
    Comment,
    Whitespace,
    #[default]
    Error,
}

/// One classified lexical unit: its kind, its text, and the position (in
/// characters) where it starts in the source.
#[verifier::ext_equal]
pub struct SpecTok {
    pub kind: Token,
    pub text: Seq<char>,
    pub offset: int,
}

/// An ASCII letter.
pub open spec fn is_letter_char(c: char) -> bool {
    ('a' as u32 <= c as u32 && c as u32 <= 'z' as u32) || ('A' as u32 <= c as u32 && c as u32
        <= 'Z' as u32)
}

/// A decimal digit.
pub open spec fn is_digit_char(c: char) -> bool {
    '0' as u32 <= c as u32 && c as u32 <= '9' as u32
}

/// A character that may start an identifier or keyword.
pub open spec fn is_word_start_char(c: char) -> bool {
    is_letter_char(c) || c == '_'
}

/// A character that may continue an identifier or keyword.
pub open spec fn is_word_char(c: char) -> bool {
    is_letter_char(c) || is_digit_char(c) || c == '_'
}

/// Horizontal whitespace, skipped without producing a token. Newlines are
/// significant and are not in this class.
pub open spec fn is_skip_char(c: char) -> bool {
    c == ' ' || c == '\t' || c == '\u{000C}' || c == '\r'
}

/// The token for a single-character operator or punctuation lexeme, if any.
pub open spec fn spec_single_char_token(c: char) -> Option<Token> {
    if c == '+' {
        Some(Token::Plus)
    } else if c == '-' {
        Some(Token::Minus)
    } else if c == '*' {
        Some(Token::Mul)
    } else if c == '/' {
        Some(Token::Div)
    } else if c == '(' {
        Some(Token::LParen)
    } else if c == ')' {
        Some(Token::RParen)
    } else if c == '{' {
        Some(Token::LBrace)
    } else if c == '}' {
        Some(Token::RBrace)
    } else if c == ';' {
        Some(Token::Semicolon)
    } else if c == '!' {
        Some(Token::LogicalNot)
    } else {
        None
    }
}

/// Classifies a word lexeme: the keyword it spells, or `Identifier`.
pub open spec fn spec_word_kind(lexeme: Seq<char>) -> Token {
    if lexeme == "move_up"@ {
        Token::MoveUp
    } else if lexeme == "move_down"@ {
        Token::MoveDown
    } else if lexeme == "move_left"@ {
        Token::MoveLeft
    } else if lexeme == "move_right"@ {
        Token::MoveRight
    } else if lexeme == "jump"@ {
        Token::Jump
    } else if lexeme == "attack"@ {
        Token::Attack
    } else if lexeme == "defend"@ {
        Token::Defend
    } else if lexeme == "if"@ {
        Token::If
    } else if lexeme == "else"@ {
        Token::Else
    } else if lexeme == "while"@ {
        Token::While
    } else if lexeme == "for"@ {
        Token::For
    } else {
        Token::Identifier
    }
}

/// Executable counterpart of [`is_letter_char`].
pub fn letter_char(c: char) -> (r: bool)
    ensures
        r == is_letter_char(c),
{
    ('a' as u32 <= c as u32 && c as u32 <= 'z' as u32) || ('A' as u32 <= c as u32 && c as u32
        <= 'Z' as u32)
}

/// Executable counterpart of [`is_digit_char`].
pub fn digit_char_test(c: char) -> (r: bool)
    ensures
        r == is_digit_char(c),
{
    '0' as u32 <= c as u32 && c as u32 <= '9' as u32
}

/// Executable counterpart of [`is_word_start_char`].
pub fn word_start_char(c: char) -> (r: bool)
    ensures
        r == is_word_start_char(c),
{
    letter_char(c) || c == '_'
}

/// Executable counterpart of [`is_word_char`].
pub fn word_char(c: char) -> (r: bool)
    ensures
        r == is_word_char(c),
{
    letter_char(c) || digit_char_test(c) || c == '_'
}

/// Executable counterpart of [`is_skip_char`].
pub fn skip_char(c: char) -> (r: bool)
    ensures
        r == is_skip_char(c),
{
    c == ' ' || c == '\t' || c == '\u{000C}' || c == '\r'
}

/// Executable counterpart of [`spec_single_char_token`].
pub fn single_char_token(c: char) -> (r: Option<Token>)
    ensures
        r == spec_single_char_token(c),
{
    if c == '+' {
        Some(Token::Plus)
    } else if c == '-' {
        Some(Token::Minus)
    } else if c == '*' {
        Some(Token::Mul)
    } else if c == '/' {
        Some(Token::Div)
    } else if c == '(' {
        Some(Token::LParen)
    } else if c == ')' {
        Some(Token::RParen)
    } else if c == '{' {
        Some(Token::LBrace)
    } else if c == '}' {
        Some(Token::RBrace)
    } else if c == ';' {
        Some(Token::Semicolon)
    } else if c == '!' {
        Some(Token::LogicalNot)
    } else {
        None
    }
}

/// Executable counterpart of [`spec_word_kind`].
pub fn word_kind(lexeme: &str) -> (r: Token)
    ensures
        r == spec_word_kind(lexeme@),
{
    if str_eq(lexeme, "move_up") {
        Token::MoveUp
    } else if str_eq(lexeme, "move_down") {
        Token::MoveDown
    } else if str_eq(lexeme, "move_left") {
        Token::MoveLeft
    } else if str_eq(lexeme, "move_right") {
        Token::MoveRight
    } else if str_eq(lexeme, "jump") {
        Token::Jump
    } else if str_eq(lexeme, "attack") {
        Token::Attack
    } else if str_eq(lexeme, "defend") {
        Token::Defend
    } else if str_eq(lexeme, "if") {
        Token::If
    } else if str_eq(lexeme, "else") {
        Token::Else
    } else if str_eq(lexeme, "while") {
        Token::While
    } else if str_eq(lexeme, "for") {
        Token::For
    } else {
        Token::Identifier
    }
}

/// The name of a token kind as it appears in diagnostics.
pub open spec fn spec_token_name(t: Token) -> Seq<char> {
    match t {
        Token::MoveUp => "MoveUp"@,
        Token::MoveDown => "MoveDown"@,
        Token::MoveLeft => "MoveLeft"@,
        Token::MoveRight => "MoveRight"@,
        Token::Jump => "Jump"@,
        Token::Attack => "Attack"@,
        Token::Defend => "Defend"@,
        Token::If => "If"@,
        Token::Else => "Else"@,
        Token::While => "While"@,
        Token::For => "For"@,
        Token::Plus => "Plus"@,
        Token::Minus => "Minus"@,
        Token::Mul => "Mul"@,
        Token::Div => "Div"@,
        Token::LParen => "LParen"@,
        Token::RParen => "RParen"@,
        Token::LBrace => "LBrace"@,
        Token::RBrace => "RBrace"@,
        Token::Semicolon => "Semicolon"@,
        Token::LogicalAnd => "LogicalAnd"@,
        Token::LogicalOr => "LogicalOr"@,
        Token::LogicalNot => "LogicalNot"@,
        Token::Identifier => "Identifier"@,
        Token::Number => "Number"@,
        Token::Newline => "Newline"@,
        Token::Comment => "Comment"@,
        Token::Whitespace => "Whitespace"@,
        Token::Error => "Error"@,
    }
}

/// Executable counterpart of [`spec_token_name`].
pub fn token_name(t: Token) -> (r: &'static str)
    ensures
        r@ == spec_token_name(t),
{
    match t {
        Token::MoveUp => "MoveUp",
        Token::MoveDown => "MoveDown",
        Token::MoveLeft => "MoveLeft",
        Token::MoveRight => "MoveRight",
        Token::Jump => "Jump",
        Token::Attack => "Attack",
        Token::Defend => "Defend",
        Token::If => "If",
        Token::Else => "Else",
        Token::While => "While",
        Token::For => "For",
        Token::Plus => "Plus",
        Token::Minus => "Minus",
        Token::Mul => "Mul",
        Token::Div => "Div",
        Token::LParen => "LParen",
        Token::RParen => "RParen",
        Token::LBrace => "LBrace",
        Token::RBrace => "RBrace",
        Token::Semicolon => "Semicolon",
        Token::LogicalAnd => "LogicalAnd",
        Token::LogicalOr => "LogicalOr",
        Token::LogicalNot => "LogicalNot",
        Token::Identifier => "Identifier",
        Token::Number => "Number",
        Token::Newline => "Newline",
        Token::Comment => "Comment",
        Token::Whitespace => "Whitespace",
        Token::Error => "Error",
    }
}

} // verus!
