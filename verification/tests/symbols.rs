use jlox::scanner::Scanner;
use jlox::token::Token;
use jlox::token_kind::TokenKind;

fn lone(source: &str, kind: TokenKind) {
    let mut scanner = Scanner::new(source);
    assert_eq!(
        scanner.scan_token(),
        Ok(Token::new(kind, source.to_string(), None, 0))
    );
    assert_eq!(
        scanner.scan_token(),
        Ok(Token::new(TokenKind::EOF, String::new(), None, 0))
    );
}

#[test]
fn left_paren_alone() {
    lone("(", TokenKind::LeftParen);
}

#[test]
fn right_paren_alone() {
    lone(")", TokenKind::RightParen);
}

#[test]
fn left_brace_alone() {
    lone("{", TokenKind::LeftBrace);
}

#[test]
fn right_brace_alone() {
    lone("}", TokenKind::RightBrace);
}

#[test]
fn comma_alone() {
    lone(",", TokenKind::Comma);
}

#[test]
fn dot_alone() {
    lone(".", TokenKind::Dot);
}

#[test]
fn minus_alone() {
    lone("-", TokenKind::Minus);
}

#[test]
fn plus_alone() {
    lone("+", TokenKind::Plus);
}

#[test]
fn semicolon_alone() {
    lone(";", TokenKind::Semicolon);
}

#[test]
fn star_alone() {
    lone("*", TokenKind::Star);
}

#[test]
fn slash_alone() {
    lone("/", TokenKind::Slash);
}

#[test]
fn bang_alone() {
    lone("!", TokenKind::Bang);
}

#[test]
fn equal_alone() {
    lone("=", TokenKind::Equal);
}

#[test]
fn less_alone() {
    lone("<", TokenKind::Less);
}

#[test]
fn greater_alone() {
    lone(">", TokenKind::Greater);
}

#[test]
fn bang_equal_is_one_token() {
    lone("!=", TokenKind::BangEqual);
}

#[test]
fn equal_equal_is_one_token() {
    lone("==", TokenKind::EqualEqual);
}

#[test]
fn less_equal_is_one_token() {
    lone("<=", TokenKind::LessEqual);
}

#[test]
fn greater_equal_is_one_token() {
    lone(">=", TokenKind::GreaterEqual);
}

#[test]
fn operator_before_another_character_stays_single() {
    let mut scanner = Scanner::new("!<>=");
    assert_eq!(
        scanner.scan_token(),
        Ok(Token::new(TokenKind::Bang, "!".to_string(), None, 0))
    );
    assert_eq!(
        scanner.scan_token(),
        Ok(Token::new(TokenKind::Less, "<".to_string(), None, 0))
    );
    assert_eq!(
        scanner.scan_token(),
        Ok(Token::new(TokenKind::GreaterEqual, ">=".to_string(), None, 0))
    );
    assert_eq!(
        scanner.scan_token(),
        Ok(Token::new(TokenKind::EOF, String::new(), None, 0))
    );
}

#[test]
fn three_equals_are_split_longest_first() {
    let mut scanner = Scanner::new("===");
    assert_eq!(
        scanner.scan_token(),
        Ok(Token::new(TokenKind::EqualEqual, "==".to_string(), None, 0))
    );
    assert_eq!(
        scanner.scan_token(),
        Ok(Token::new(TokenKind::Equal, "=".to_string(), None, 0))
    );
    assert_eq!(
        scanner.scan_token(),
        Ok(Token::new(TokenKind::EOF, String::new(), None, 0))
    );
}

#[test]
fn equals_sign_on_the_next_line_does_not_join() {
    let mut scanner = Scanner::new("<\n=");
    assert_eq!(
        scanner.scan_token(),
        Ok(Token::new(TokenKind::Less, "<".to_string(), None, 0))
    );
    assert_eq!(
        scanner.scan_token(),
        Ok(Token::new(TokenKind::Equal, "=".to_string(), None, 1))
    );
}

#[test]
fn literal_is_always_absent() {
    let mut scanner = Scanner::new("(==");
    assert_eq!(scanner.scan_token().unwrap().literal, None);
    assert_eq!(scanner.scan_token().unwrap().literal, None);
    assert_eq!(scanner.scan_token().unwrap().literal, None);
}
