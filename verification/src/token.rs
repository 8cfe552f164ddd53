//! The token alphabet of the scanner.

use vstd::prelude::*;

verus! {

/// One lexical unit of the expression language.
///
/// Every variant but `Number` stands for a single fixed character in the
/// source text. `Number` carries the value of a maximal run of decimal
/// digits, parsed as a signed 32-bit integer.
#[derive(Debug, PartialEq, Eq, Structural, Clone, Copy)]
pub enum Token {
    LParen,
    RParen,
    LBrace,
    RBrace,
    LAngleBracket,
    RAngleBracket,
    Plus,
    Minus,
    Asterisk,
    Slash,
    Ban,
    Underbar,
    Apostrophe,
    Question,
    Equals,
    Number(i32),
}

/// The token a single character lexes to, if any: the fixed alphabet of
/// single-character lexemes. Digits are not in it; they are gathered into
/// `Number` tokens by the number matcher.
pub open spec fn char_token(c: char) -> Option<Token> {
    if c == '(' {
        Some(Token::LParen)
    } else if c == ')' {
        Some(Token::RParen)
    } else if c == '[' {
        Some(Token::LBrace)
    } else if c == ']' {
        Some(Token::RBrace)
    } else if c == '<' {
        Some(Token::LAngleBracket)
    } else if c == '>' {
        Some(Token::RAngleBracket)
    } else if c == '+' {
        Some(Token::Plus)
    } else if c == '-' {
        Some(Token::Minus)
    } else if c == '*' {
        Some(Token::Asterisk)
    } else if c == '/' {
        Some(Token::Slash)
    } else if c == '!' {
        Some(Token::Ban)
    } else if c == '_' {
        Some(Token::Underbar)
    } else if c == '\'' {
        Some(Token::Apostrophe)
    } else if c == '?' {
        Some(Token::Question)
    } else if c == '=' {
        Some(Token::Equals)
    } else {
        None
    }
}

} // verus!
