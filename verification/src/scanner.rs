use crate::encoding::{
    byte_offset, lemma_byte_offset_step, lemma_encode_length, text_from, text_until, utf8_width,
};
use crate::grammar::{
    has_char_at, lemma_newlines_bounded, lemma_newlines_step, lemma_scan_span, line_end,
    newlines_before, scan_from,
};
use crate::token::{Token, TokenView};
use crate::token_kind::TokenKind;
use vstd::prelude::*;
use vstd::utf8::encode_utf8;

verus! {

/// Why a scan produced no token.
#[derive(Debug, Clone, Copy, PartialEq, Eq, Structural)]
pub enum ScannerErrorKind {
    /// A character that begins no token and is neither blank nor part of a comment.
    UnexpectedCharacter,
}

/// A lexical error, with the line on which it was met.
#[derive(Debug, Clone, Copy, PartialEq, Eq, Structural)]
pub struct ScannerError {
    pub kind: ScannerErrorKind,
    pub line: usize,
}

/// What a [`ScannerError`] stands for in specifications.
pub struct ScannerErrorView {
    pub kind: ScannerErrorKind,
    pub line: nat,
}

impl View for ScannerError {
    type V = ScannerErrorView;

    open spec fn view(&self) -> ScannerErrorView {
        ScannerErrorView { kind: self.kind, line: self.line as nat }
    }
}

impl ScannerError {
    /// An error of the given kind, met on the given line.
    pub fn new(kind: ScannerErrorKind, line: usize) -> (error: ScannerError)
        ensures
            error == (ScannerError { kind, line }),
    {
        ScannerError { kind, line }
    }
}

/// What the result of a pull stands for in specifications.
pub open spec fn pull_view(result: Result<Token, ScannerError>) -> Result<
    TokenView,
    ScannerErrorView,
> {
    match result {
        Ok(token) => Ok(token@),
        Err(error) => Err(error@),
    }
}

/// What the results of a run of pulls stand for, one by one.
pub open spec fn pull_views(results: Seq<Result<Token, ScannerError>>) -> Seq<
    Result<TokenView, ScannerErrorView>,
> {
    results.map_values(|result: Result<Token, ScannerError>| pull_view(result))
}

/// Whether what a pull yielded is the end-of-input token.
pub open spec fn is_end_of_input(pulled: Result<TokenView, ScannerErrorView>) -> bool {
    pulled matches Ok(token) && token.kind == TokenKind::EOF
}

/// The state of a scanner in specifications: the source as a sequence of
/// characters, and a cursor of character offsets into it.
pub struct ScannerView {
    pub source: Seq<char>,
    /// Where the most recent scan began.
    pub start: int,
    /// The first character that has not been consumed.
    pub current: int,
    /// The line, counted from zero, on which `current` lies.
    pub line: nat,
}

impl ScannerView {
    /// The state of a fresh scanner over `source`.
    pub open spec fn initial(source: Seq<char>) -> ScannerView {
        ScannerView { source, start: 0, current: 0, line: 0 }
    }

    /// The state of a scanner over `source` that is about to scan from `pos`.
    pub open spec fn at(source: Seq<char>, pos: int) -> ScannerView {
        ScannerView { source, start: pos, current: pos, line: newlines_before(source, pos) }
    }

    /// The cursor lies within the source, and the line counts the newlines consumed.
    pub open spec fn wf(self) -> bool {
        &&& 0 <= self.start <= self.current <= self.source.len()
        &&& self.line == newlines_before(self.source, self.current)
    }

    /// What the next pull yields: a token with the exact text of its span and
    /// the line on which it begins, or an error with the line of the
    /// offending character.
    pub open spec fn pulled(self) -> Result<TokenView, ScannerErrorView> {
        let scan = scan_from(self.source, self.current);
        let line = newlines_before(self.source, scan.start);
        match scan.outcome {
            Ok(kind) => Ok(
                TokenView {
                    kind,
                    line,
                    lexeme: self.source.subrange(scan.start, scan.end),
                    literal: None,
                },
            ),
            Err(kind) => Err(ScannerErrorView { kind, line }),
        }
    }

    /// The state in which the next pull leaves the scanner: the cursor spans
    /// what was scanned, whether it was a token or an unexpected character.
    pub open spec fn after_pull(self) -> ScannerView {
        let scan = scan_from(self.source, self.current);
        ScannerView {
            source: self.source,
            start: scan.start,
            current: scan.end,
            line: newlines_before(self.source, scan.end),
        }
    }

    /// The state in which `count` pulls in a row leave the scanner.
    pub open spec fn after_pulls(self, count: nat) -> ScannerView
        decreases count,
    {
        if count == 0 {
            self
        } else {
            self.after_pull().after_pulls((count - 1) as nat)
        }
    }

    /// Everything that the pulls from this state on yield, in order, up to
    /// and including the end-of-input token.
    pub open spec fn remaining(self) -> Seq<Result<TokenView, ScannerErrorView>>
        decreases self.source.len() - self.current,
    {
        if is_end_of_input(self.pulled()) {
            seq![self.pulled()]
        } else {
            proof {
                if 0 <= self.current <= self.source.len() {
                    lemma_scan_span(self.source, self.current);
                }
            }
            seq![self.pulled()] + self.after_pull().remaining()
        }
    }
}

/// Scans a source text, one token per pull.
///
/// The scanner borrows the source and never changes it. It steps through the
/// source by whole characters, whatever their encoded width, and each step
/// takes constant time.
pub struct Scanner<'a> {
    source: &'a str,
    /// The length of `source` in bytes.
    length: usize,
    /// The byte offset at which the most recent scan began.
    start: usize,
    /// The byte offset of the first character that has not been consumed.
    current: usize,
    /// The number of newlines consumed so far.
    line: usize,
    /// `start`, counted in characters.
    start_index: Ghost<int>,
    /// `current`, counted in characters.
    current_index: Ghost<int>,
}

impl<'a> View for Scanner<'a> {
    type V = ScannerView;

    closed spec fn view(&self) -> ScannerView {
        ScannerView {
            source: self.source@,
            start: self.start_index@,
            current: self.current_index@,
            line: self.line as nat,
        }
    }
}

impl<'a> Scanner<'a> {
    /// The byte offsets that the scanner works with are those of the
    /// character offsets that its view speaks of.
    pub closed spec fn offsets_valid(&self) -> bool {
        &&& self.length == encode_utf8(self.source@).len()
        &&& self.start == byte_offset(self.source@, self.start_index@)
        &&& self.current == byte_offset(self.source@, self.current_index@)
    }

    /// The invariant of a scanner, which every operation keeps.
    pub open spec fn wf(&self) -> bool {
        self@.wf() && self.offsets_valid()
    }

    /// The cursor lies within the source; the line may lag behind it.
    spec fn in_bounds(&self) -> bool {
        &&& self.offsets_valid()
        &&& 0 <= self.start_index@ <= self.current_index@ <= self.source@.len()
    }

    /// A scanner positioned at the start of `source`, on line zero.
    pub fn new(source: &'a str) -> (scanner: Scanner<'a>)
        ensures
            scanner.wf(),
            scanner@ == ScannerView::initial(source@),
    {
        Scanner {
            source,
            length: source.as_bytes().len(),
            start: 0,
            current: 0,
            line: 0,
            start_index: Ghost(0),
            current_index: Ghost(0),
        }
    }

    /// Pulls the next token.
    ///
    /// Blanks, newlines and line comments are passed over. At the end of the
    /// source every pull yields the end-of-input token. A character that
    /// begins no token is consumed and reported; the pull after that goes on
    /// from the character behind it.
    pub fn scan_token(&mut self) -> (result: Result<Token, ScannerError>)
        requires
            old(self).wf(),
        ensures
            final(self).wf(),
            final(self)@ == old(self)@.after_pull(),
            pull_view(result) == old(self)@.pulled(),
    {
        loop
            invariant
                self.wf(),
                self@.source == old(self)@.source,
                scan_from(self@.source, self@.current) == scan_from(
                    old(self)@.source,
                    old(self)@.current,
                ),
            decreases self@.source.len() - self@.current,
        {
            self.start = self.current;
            self.start_index = self.current_index;
            let ghost begin = self@.current;

            if self.is_at_end() {
                return Ok(self.create_token(TokenKind::EOF, None));
            }
            proof {
                lemma_newlines_step(self@.source, self@.current);
            }

            let token = match self.advance() {
                '(' => self.create_token(TokenKind::LeftParen, None),
                ')' => self.create_token(TokenKind::RightParen, None),
                '{' => self.create_token(TokenKind::LeftBrace, None),
                '}' => self.create_token(TokenKind::RightBrace, None),
                ',' => self.create_token(TokenKind::Comma, None),
                '.' => self.create_token(TokenKind::Dot, None),
                '-' => self.create_token(TokenKind::Minus, None),
                '+' => self.create_token(TokenKind::Plus, None),
                ';' => self.create_token(TokenKind::Semicolon, None),
                '*' => self.create_token(TokenKind::Star, None),
                '!' => {
                    if self.match_char('=') {
                        self.create_token(TokenKind::BangEqual, None)
                    } else {
                        self.create_token(TokenKind::Bang, None)
                    }
                },
                '=' => {
                    if self.match_char('=') {
                        self.create_token(TokenKind::EqualEqual, None)
                    } else {
                        self.create_token(TokenKind::Equal, None)
                    }
                },
                '<' => {
                    if self.match_char('=') {
                        self.create_token(TokenKind::LessEqual, None)
                    } else {
                        self.create_token(TokenKind::Less, None)
                    }
                },
                '>' => {
                    if self.match_char('=') {
                        self.create_token(TokenKind::GreaterEqual, None)
                    } else {
                        self.create_token(TokenKind::Greater, None)
                    }
                },
                '/' => {
                    if self.match_char('/') {
                        while self.peek() != '\n' && !self.is_at_end()
                            invariant
                                self.wf(),
                                self@.source == old(self)@.source,
                                self@.start == begin,
                                begin + 2 <= self@.current,
                                line_end(self@.source, self@.current) == line_end(
                                    self@.source,
                                    begin + 2,
                                ),
                                scan_from(self@.source, line_end(self@.source, begin + 2))
                                    == scan_from(old(self)@.source, old(self)@.current),
                            decreases self@.source.len() - self@.current,
                        {
                            proof {
                                lemma_newlines_step(self@.source, self@.current);
                            }
                            self.advance();
                        }
                        continue ;
                    } else {
                        self.create_token(TokenKind::Slash, None)
                    }
                },
                '\n' => {
                    proof {
                        lemma_newlines_bounded(self@.source, begin);
                        lemma_encode_length(self@.source);
                    }
                    self.line += 1;
                    continue ;
                },
                ' ' | '\r' | '\t' => {
                    continue ;
                },
                _ => {
                    return Err(ScannerError::new(ScannerErrorKind::UnexpectedCharacter, self.line));
                },
            };

            return Ok(token);
        }
    }

    /// Pulls until the end of the input, and returns what each pull yielded,
    /// in order: every token and every error, the end-of-input token last.
    pub fn scan_tokens(&mut self) -> (pulled: Vec<Result<Token, ScannerError>>)
        requires
            old(self).wf(),
        ensures
            final(self).wf(),
            final(self)@ == ScannerView::at(old(self)@.source, old(self)@.source.len() as int),
            pull_views(pulled@) == old(self)@.remaining(),
    {
        let mut pulled: Vec<Result<Token, ScannerError>> = Vec::new();
        loop
            invariant
                self.wf(),
                self@.source == old(self)@.source,
                pull_views(pulled@) + self@.remaining() == old(self)@.remaining(),
            decreases self@.source.len() - self@.current,
        {
            proof {
                lemma_scan_span(self@.source, self@.current);
            }
            let result = self.scan_token();
            let done = match &result {
                Ok(token) => token.kind == TokenKind::EOF,
                Err(_) => false,
            };
            pulled.push(result);
            if done {
                return pulled;
            }
        }
    }

    fn is_at_end(&self) -> (at_end: bool)
        requires
            self.in_bounds(),
        ensures
            at_end == (self@.current >= self@.source.len()),
    {
        proof {
            if self@.current < self@.source.len() {
                lemma_byte_offset_step(self@.source, self@.current);
            } else {
                assert(self@.source.take(self@.current) =~= self@.source);
            }
        }
        self.current >= self.length
    }

    /// The next character, without consuming it; the null character at the end.
    fn peek(&self) -> (c: char)
        requires
            self.in_bounds(),
        ensures
            c == if self@.current < self@.source.len() {
                self@.source[self@.current]
            } else {
                '\0'
            },
    {
        if self.is_at_end() {
            '\0'
        } else {
            text_from(self.source, self.current, self.current_index).get_char(0)
        }
    }

    /// Consumes the next character and returns it.
    fn advance(&mut self) -> (c: char)
        requires
            old(self).in_bounds(),
            old(self)@.current < old(self)@.source.len(),
        ensures
            final(self).in_bounds(),
            c == old(self)@.source[old(self)@.current],
            final(self)@ == (ScannerView { current: old(self)@.current + 1, ..old(self)@ }),
    {
        let c = self.peek();
        proof {
            lemma_byte_offset_step(self@.source, self@.current);
        }
        self.current += utf8_width(c);
        self.current_index = Ghost(self.current_index@ + 1);
        c
    }

    /// Consumes the next character if it is `expected`, and says whether it did.
    fn match_char(&mut self, expected: char) -> (matched: bool)
        requires
            old(self).in_bounds(),
        ensures
            final(self).in_bounds(),
            matched == has_char_at(old(self)@.source, old(self)@.current, expected),
            final(self)@ == (ScannerView {
                current: if matched {
                    old(self)@.current + 1
                } else {
                    old(self)@.current
                },
                ..old(self)@
            }),
    {
        if self.is_at_end() {
            return false;
        }
        if self.peek() != expected {
            return false;
        }
        self.advance();
        true
    }

    /// The token of the given kind whose text is the span between `start` and `current`.
    fn create_token(&self, kind: TokenKind, literal: Option<String>) -> (token: Token)
        requires
            self.in_bounds(),
        ensures
            token@ == (TokenView {
                kind,
                line: self@.line,
                lexeme: self@.source.subrange(self@.start, self@.current),
                literal: match literal {
                    Some(text) => Some(text@),
                    None => None,
                },
            }),
    {
        let consumed = text_until(self.source, self.current, self.current_index);
        proof {
            assert(consumed@.take(self@.start) =~= self@.source.take(self@.start));
            assert(consumed@.skip(self@.start) =~= self@.source.subrange(
                self@.start,
                self@.current,
            ));
        }
        let text = text_from(consumed, self.start, self.start_index);
        Token::new(kind, text.to_owned(), literal, self.line)
    }
}

} // verus!
