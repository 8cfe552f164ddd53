use lexer::lexer::{Lexed, Lexer};
use lexer::token::Token;

#[test]
fn every_symbol_then_another_char() {
    assert_eq!(Lexer::lex("(a"), Some(Lexed::new(Token::LParen, "a")));
    assert_eq!(Lexer::lex(")a"), Some(Lexed::new(Token::RParen, "a")));
    assert_eq!(Lexer::lex("[a"), Some(Lexed::new(Token::LBrace, "a")));
    assert_eq!(Lexer::lex("]a"), Some(Lexed::new(Token::RBrace, "a")));
    assert_eq!(Lexer::lex("<a"), Some(Lexed::new(Token::LAngleBracket, "a")));
    assert_eq!(Lexer::lex(">a"), Some(Lexed::new(Token::RAngleBracket, "a")));
    assert_eq!(Lexer::lex("+a"), Some(Lexed::new(Token::Plus, "a")));
    assert_eq!(Lexer::lex("-a"), Some(Lexed::new(Token::Minus, "a")));
    assert_eq!(Lexer::lex("*a"), Some(Lexed::new(Token::Asterisk, "a")));
    assert_eq!(Lexer::lex("/a"), Some(Lexed::new(Token::Slash, "a")));
    assert_eq!(Lexer::lex("!a"), Some(Lexed::new(Token::Ban, "a")));
    assert_eq!(Lexer::lex("_a"), Some(Lexed::new(Token::Underbar, "a")));
    assert_eq!(Lexer::lex("'a"), Some(Lexed::new(Token::Apostrophe, "a")));
    assert_eq!(Lexer::lex("?a"), Some(Lexed::new(Token::Question, "a")));
    assert_eq!(Lexer::lex("=a"), Some(Lexed::new(Token::Equals, "a")));
}

#[test]
fn digits_then_delimiter() {
    assert_eq!(Lexer::lex("007x"), Some(Lexed::new(Token::Number(7), "x")));
    assert_eq!(Lexer::lex("007"), Some(Lexed::new(Token::Number(7), "")));
    assert_eq!(Lexer::lex("42)"), Some(Lexed::new(Token::Number(42), ")")));
    assert_eq!(Lexer::lex("0"), Some(Lexed::new(Token::Number(0), "")));
}

#[test]
fn number_at_the_i32_boundary() {
    assert_eq!(
        Lexer::number("2147483647"),
        Some(Lexed::new(Token::Number(2147483647), ""))
    );
    assert_eq!(Lexer::number("2147483648"), None);
    assert_eq!(Lexer::number("99999999999999999999"), None);
}

#[test]
fn overflowing_number_cuts_the_stream() {
    let mut lexer = Lexer::new("2147483648");
    assert_eq!(lexer.peek(), None);
    assert_eq!(lexer.next(), None);
    assert_eq!(lexer.next(), None);
}

#[test]
fn sign_never_folds_into_a_number() {
    let mut lexer = Lexer::new("+123");
    assert_eq!(lexer.next(), Some(Token::Plus));
    assert_eq!(lexer.next(), Some(Token::Number(123)));
    assert_eq!(lexer.next(), None);

    let mut lexer = Lexer::new("-45");
    assert_eq!(lexer.next(), Some(Token::Minus));
    assert_eq!(lexer.next(), Some(Token::Number(45)));
    assert_eq!(lexer.next(), None);
}

#[test]
fn whitespace_is_skipped_everywhere() {
    let mut lexer = Lexer::new("  \t\n\r  42");
    assert_eq!(lexer.next(), Some(Token::Number(42)));
    assert_eq!(lexer.next(), None);

    let mut lexer = Lexer::new(" \n ( \t + \r 1   2 ) ");
    assert_eq!(lexer.next(), Some(Token::LParen));
    assert_eq!(lexer.next(), Some(Token::Plus));
    assert_eq!(lexer.next(), Some(Token::Number(1)));
    assert_eq!(lexer.next(), Some(Token::Number(2)));
    assert_eq!(lexer.next(), Some(Token::RParen));
    assert_eq!(lexer.next(), None);
}

#[test]
fn unicode_whitespace_is_skipped_too() {
    let mut lexer = Lexer::new("\u{3000}1\u{2003}2");
    assert_eq!(lexer.next(), Some(Token::Number(1)));
    assert_eq!(lexer.next(), Some(Token::Number(2)));
    assert_eq!(lexer.next(), None);
}

#[test]
fn whitespace_alone_yields_nothing() {
    let mut lexer = Lexer::new("   \t\n  ");
    assert_eq!(lexer.peek(), None);
    assert_eq!(lexer.next(), None);
}

#[test]
fn peek_is_idempotent_and_next_advances_once() {
    let mut lexer = Lexer::new("< 9");
    assert_eq!(lexer.peek(), Some(Token::LAngleBracket));
    assert_eq!(lexer.peek(), Some(Token::LAngleBracket));
    assert_eq!(lexer.peek(), Some(Token::LAngleBracket));
    assert_eq!(lexer.next(), Some(Token::LAngleBracket));
    assert_eq!(lexer.peek(), Some(Token::Number(9)));
    assert_eq!(lexer.peek(), Some(Token::Number(9)));
    assert_eq!(lexer.next(), Some(Token::Number(9)));
    assert_eq!(lexer.peek(), None);
    assert_eq!(lexer.peek(), None);
    assert_eq!(lexer.next(), None);
}

#[test]
fn end_to_end_plus_one_two() {
    let mut lexer = Lexer::new("(+ 1 2)");
    assert_eq!(lexer.next(), Some(Token::LParen));
    assert_eq!(lexer.next(), Some(Token::Plus));
    assert_eq!(lexer.next(), Some(Token::Number(1)));
    assert_eq!(lexer.next(), Some(Token::Number(2)));
    assert_eq!(lexer.next(), Some(Token::RParen));
    assert_eq!(lexer.next(), None);
    assert_eq!(lexer.next(), None);
    assert_eq!(lexer.next(), None);
}

#[test]
fn end_to_end_nested_expression() {
    let mut lexer = Lexer::new("(= 1 (+ 2 3))");
    assert_eq!(lexer.next(), Some(Token::LParen));
    assert_eq!(lexer.next(), Some(Token::Equals));
    assert_eq!(lexer.next(), Some(Token::Number(1)));
    assert_eq!(lexer.next(), Some(Token::LParen));
    assert_eq!(lexer.next(), Some(Token::Plus));
    assert_eq!(lexer.next(), Some(Token::Number(2)));
    assert_eq!(lexer.next(), Some(Token::Number(3)));
    assert_eq!(lexer.next(), Some(Token::RParen));
    assert_eq!(lexer.next(), Some(Token::RParen));
    assert_eq!(lexer.next(), None);
}

#[test]
fn unrecognized_and_empty_both_yield_nothing() {
    let mut garbage = Lexer::new("~");
    assert_eq!(garbage.peek(), None);
    assert_eq!(garbage.next(), None);
    assert_eq!(garbage.next(), None);

    let mut empty = Lexer::new("");
    assert_eq!(empty.peek(), None);
    assert_eq!(empty.next(), None);
    assert_eq!(empty.next(), None);
}

#[test]
fn stream_cuts_short_at_garbage() {
    let mut lexer = Lexer::new("1~2");
    assert_eq!(lexer.next(), Some(Token::Number(1)));
    assert_eq!(lexer.next(), None);
    assert_eq!(lexer.next(), None);
}
