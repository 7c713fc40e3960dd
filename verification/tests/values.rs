use jlox::token::Token;
use jlox::token_kind::TokenKind;

#[test]
fn token_holds_what_it_was_built_from() {
    let token = Token::new(
        TokenKind::Slash,
        "/".to_string(),
        Some("value".to_string()),
        12,
    );
    assert_eq!(token.kind, TokenKind::Slash);
    assert_eq!(token.lexeme, "/");
    assert_eq!(token.literal, Some("value".to_string()));
    assert_eq!(token.line, 12);
}

#[test]
fn tokens_are_equal_when_all_parts_are() {
    let token = Token::new(TokenKind::Dot, ".".to_string(), None, 3);
    assert_eq!(token, Token::new(TokenKind::Dot, ".".to_string(), None, 3));
    assert_ne!(token, Token::new(TokenKind::Comma, ".".to_string(), None, 3));
    assert_ne!(token, Token::new(TokenKind::Dot, ",".to_string(), None, 3));
    assert_ne!(token, Token::new(TokenKind::Dot, ".".to_string(), None, 4));
    assert_ne!(
        token,
        Token::new(TokenKind::Dot, ".".to_string(), Some(String::new()), 3)
    );
}

#[test]
fn tokens_with_literals_compare_by_the_literal() {
    let token = Token::new(TokenKind::Plus, "+".to_string(), Some("a".to_string()), 0);
    assert_eq!(
        token,
        Token::new(TokenKind::Plus, "+".to_string(), Some("a".to_string()), 0)
    );
    assert_ne!(
        token,
        Token::new(TokenKind::Plus, "+".to_string(), Some("b".to_string()), 0)
    );
}

#[test]
fn cloned_token_equals_its_source() {
    let token = Token::new(TokenKind::BangEqual, "!=".to_string(), Some("x".to_string()), 9);
    let copy = token.clone();
    assert_eq!(copy, token);
    assert_eq!(copy.lexeme, "!=");
    assert_eq!(copy.literal, Some("x".to_string()));
}

#[test]
fn token_prints_its_parts() {
    let token = Token::new(TokenKind::LeftParen, "(".to_string(), None, 0);
    assert_eq!(
        format!("{:?}", token),
        "Token { kind: LeftParen, line: 0, lexeme: \"(\", literal: None }"
    );
}
