use crate::token_kind::TokenKind;
use vstd::prelude::*;
use vstd::std_specs::cmp::PartialEqSpecImpl;

verus! {

/// A classified piece of the source text.
#[derive(Debug)]
pub struct Token {
    pub kind: TokenKind,
    /// The line, counted from zero, on which the token begins.
    pub line: usize,
    /// The exact text of the token; empty for the end-of-input token.
    pub lexeme: String,
    /// The decoded value of a literal. No kind carries one yet.
    pub literal: Option<String>,
}

/// What a [`Token`] stands for in specifications: its strings as sequences of characters.
pub struct TokenView {
    pub kind: TokenKind,
    pub line: nat,
    pub lexeme: Seq<char>,
    pub literal: Option<Seq<char>>,
}

impl TokenView {
    /// The token that marks the end of the input when it is reached on `line`.
    pub open spec fn end_of_input(line: nat) -> TokenView {
        TokenView { kind: TokenKind::EOF, line, lexeme: Seq::empty(), literal: None }
    }
}

impl View for Token {
    type V = TokenView;

    open spec fn view(&self) -> TokenView {
        TokenView {
            kind: self.kind,
            line: self.line as nat,
            lexeme: self.lexeme@,
            literal: match self.literal {
                Some(text) => Some(text@),
                None => None,
            },
        }
    }
}

impl Clone for Token {
    fn clone(&self) -> (copy: Token)
        ensures
            copy == *self,
    {
        Token {
            kind: self.kind,
            line: self.line,
            lexeme: self.lexeme.clone(),
            literal: match &self.literal {
                Some(text) => Some(text.clone()),
                None => None,
            },
        }
    }
}

impl PartialEq for Token {
    /// Two tokens are equal when they stand for the same: `self@ == other@`.
    fn eq(&self, other: &Token) -> (equal: bool) {
        let same_literal = match (&self.literal, &other.literal) {
            (Some(text), Some(other_text)) => *text == *other_text,
            (None, None) => true,
            _ => false,
        };
        self.kind == other.kind && self.line == other.line && self.lexeme == other.lexeme
            && same_literal
    }
}

impl PartialEqSpecImpl for Token {
    open spec fn obeys_eq_spec() -> bool {
        true
    }

    open spec fn eq_spec(&self, other: &Token) -> bool {
        self@ == other@
    }
}

impl Eq for Token {

}

impl Token {
    /// Builds a token from its four parts.
    pub fn new(kind: TokenKind, lexeme: String, literal: Option<String>, line: usize) -> (token:
        Token)
        ensures
            token == (Token { kind, line, lexeme, literal }),
    {
        Token { kind, lexeme, literal, line }
    }
}

} // verus!
