use airl::span::Span;
use airl::token::{Token, TokenKind};

#[test]
fn token_equality() {
    let a = Token::new(TokenKind::Integer(42), Span::new(0, 2, 1, 0));
    let b = Token::new(TokenKind::Integer(42), Span::new(0, 2, 1, 0));
    assert_eq!(a, b);
}

#[test]
fn eof_is_recognised() {
    assert!(TokenKind::Eof.is_eof());
    assert!(!TokenKind::Nil.is_eof());
}
