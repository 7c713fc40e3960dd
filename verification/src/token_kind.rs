use vstd::prelude::*;

verus! {

/// The lexical categories a token can belong to.
///
/// The set is closed: consumers are expected to match on it exhaustively.
#[derive(Debug, Clone, Copy, PartialEq, Eq, Hash, Structural)]
pub enum TokenKind {
    // Grouping symbols.
    LeftParen,
    RightParen,
    LeftBrace,
    RightBrace,
    // Punctuation.
    Comma,
    Dot,
    Semicolon,
    // Arithmetic operators.
    Minus,
    Plus,
    Slash,
    Star,
    // Relational and equality operators, one or two characters long.
    Bang,
    BangEqual,
    Equal,
    EqualEqual,
    Greater,
    GreaterEqual,
    Less,
    LessEqual,
    /// Marks the end of the input.
    EOF,
}

} // verus!
