use jlox::scanner::{Scanner, ScannerError, ScannerErrorKind};
use jlox::token::Token;
use jlox::token_kind::TokenKind;

fn tok(kind: TokenKind, lexeme: &str, line: usize) -> Result<Token, ScannerError> {
    Ok(Token::new(kind, lexeme.to_string(), None, line))
}

#[test]
fn scans_parenthesised_operators() {
    let mut scanner = Scanner::new("(+-)");
    assert_eq!(scanner.scan_token(), tok(TokenKind::LeftParen, "(", 0));
    assert_eq!(scanner.scan_token(), tok(TokenKind::Plus, "+", 0));
    assert_eq!(scanner.scan_token(), tok(TokenKind::Minus, "-", 0));
    assert_eq!(scanner.scan_token(), tok(TokenKind::RightParen, ")", 0));
    assert_eq!(scanner.scan_token(), tok(TokenKind::EOF, "", 0));
}

#[test]
fn scans_operators_across_lines() {
    let mut scanner = Scanner::new("!=\n<=");
    assert_eq!(scanner.scan_token(), tok(TokenKind::BangEqual, "!=", 0));
    assert_eq!(scanner.scan_token(), tok(TokenKind::LessEqual, "<=", 1));
    assert_eq!(scanner.scan_token(), tok(TokenKind::EOF, "", 1));
}

#[test]
fn drains_parenthesised_operators() {
    assert_eq!(
        Scanner::new("(+-)").scan_tokens(),
        vec![
            tok(TokenKind::LeftParen, "(", 0),
            tok(TokenKind::Plus, "+", 0),
            tok(TokenKind::Minus, "-", 0),
            tok(TokenKind::RightParen, ")", 0),
            tok(TokenKind::EOF, "", 0),
        ]
    );
}

#[test]
fn drains_tokens_and_errors_in_order() {
    assert_eq!(
        Scanner::new("{ a == b; } // done\n@").scan_tokens(),
        vec![
            tok(TokenKind::LeftBrace, "{", 0),
            Err(ScannerError::new(ScannerErrorKind::UnexpectedCharacter, 0)),
            tok(TokenKind::EqualEqual, "==", 0),
            Err(ScannerError::new(ScannerErrorKind::UnexpectedCharacter, 0)),
            tok(TokenKind::Semicolon, ";", 0),
            tok(TokenKind::RightBrace, "}", 0),
            Err(ScannerError::new(ScannerErrorKind::UnexpectedCharacter, 1)),
            tok(TokenKind::EOF, "", 1),
        ]
    );
}

#[test]
fn drains_the_empty_source() {
    assert_eq!(Scanner::new("").scan_tokens(), vec![tok(TokenKind::EOF, "", 0)]);
}

#[test]
fn drains_what_is_left_after_some_pulls() {
    let mut scanner = Scanner::new("<= >= !");
    assert_eq!(scanner.scan_token(), tok(TokenKind::LessEqual, "<=", 0));
    assert_eq!(
        scanner.scan_tokens(),
        vec![
            tok(TokenKind::GreaterEqual, ">=", 0),
            tok(TokenKind::Bang, "!", 0),
            tok(TokenKind::EOF, "", 0),
        ]
    );
}

#[test]
fn drains_every_kind_of_token() {
    let kinds: Vec<TokenKind> = Scanner::new("(){},.-+;*/! != = == > >= < <=")
        .scan_tokens()
        .into_iter()
        .map(|pulled| pulled.expect("every symbol is known").kind)
        .collect();
    assert_eq!(
        kinds,
        vec![
            TokenKind::LeftParen,
            TokenKind::RightParen,
            TokenKind::LeftBrace,
            TokenKind::RightBrace,
            TokenKind::Comma,
            TokenKind::Dot,
            TokenKind::Minus,
            TokenKind::Plus,
            TokenKind::Semicolon,
            TokenKind::Star,
            TokenKind::Slash,
            TokenKind::Bang,
            TokenKind::BangEqual,
            TokenKind::Equal,
            TokenKind::EqualEqual,
            TokenKind::Greater,
            TokenKind::GreaterEqual,
            TokenKind::Less,
            TokenKind::LessEqual,
            TokenKind::EOF,
        ]
    );
}

#[test]
fn drains_a_long_source_beyond_ascii() {
    let source = "\u{3bb}(\n".repeat(50_000);
    let pulled = Scanner::new(&source).scan_tokens();
    assert_eq!(pulled.len(), 100_001);
    assert_eq!(
        pulled[0],
        Err(ScannerError::new(ScannerErrorKind::UnexpectedCharacter, 0))
    );
    assert_eq!(pulled[99_999], tok(TokenKind::LeftParen, "(", 49_999));
    assert_eq!(pulled[100_000], tok(TokenKind::EOF, "", 50_000));
}

#[test]
fn lexemes_are_slices_of_the_source() {
    let source = "((!=))\n<=;";
    let mut rebuilt = String::new();
    for pulled in Scanner::new(source).scan_tokens() {
        rebuilt.push_str(&pulled.expect("every symbol is known").lexeme);
    }
    assert_eq!(rebuilt, "((!=))<=;");
}

#[test]
fn independent_scanners_do_not_interfere() {
    let mut first = Scanner::new("+\n-");
    let mut second = Scanner::new("*");
    assert_eq!(first.scan_token(), tok(TokenKind::Plus, "+", 0));
    assert_eq!(second.scan_token(), tok(TokenKind::Star, "*", 0));
    assert_eq!(first.scan_token(), tok(TokenKind::Minus, "-", 1));
    assert_eq!(second.scan_token(), tok(TokenKind::EOF, "", 0));
}
