//! The lexical rules, stated over a source text seen as a sequence of characters.
//!
//! Positions are character offsets into that sequence. Nothing here is
//! compiled: these are the terms in which the scanner's contracts are
//! phrased, with the basic facts about them.

use crate::scanner::ScannerErrorKind;
use crate::token_kind::TokenKind;
use vstd::prelude::*;

verus! {

/// The kind of token that `c` forms when it stands alone, if it forms one.
pub open spec fn symbol_kind(c: char) -> Option<TokenKind> {
    match c {
        '(' => Some(TokenKind::LeftParen),
        ')' => Some(TokenKind::RightParen),
        '{' => Some(TokenKind::LeftBrace),
        '}' => Some(TokenKind::RightBrace),
        ',' => Some(TokenKind::Comma),
        '.' => Some(TokenKind::Dot),
        '-' => Some(TokenKind::Minus),
        '+' => Some(TokenKind::Plus),
        ';' => Some(TokenKind::Semicolon),
        '*' => Some(TokenKind::Star),
        '/' => Some(TokenKind::Slash),
        '!' => Some(TokenKind::Bang),
        '=' => Some(TokenKind::Equal),
        '<' => Some(TokenKind::Less),
        '>' => Some(TokenKind::Greater),
        _ => None,
    }
}

/// The kind of the two-character operator made of `c` followed by `=`, if there is one.
pub open spec fn compound_kind(c: char) -> Option<TokenKind> {
    match c {
        '!' => Some(TokenKind::BangEqual),
        '=' => Some(TokenKind::EqualEqual),
        '<' => Some(TokenKind::LessEqual),
        '>' => Some(TokenKind::GreaterEqual),
        _ => None,
    }
}

/// Space, carriage return and horizontal tab separate tokens without forming one.
pub open spec fn is_blank(c: char) -> bool {
    c == ' ' || c == '\r' || c == '\t'
}

/// Whether the character at `pos` exists and equals `c`.
pub open spec fn has_char_at(source: Seq<char>, pos: int, c: char) -> bool {
    0 <= pos < source.len() && source[pos] == c
}

/// Whether a line comment, introduced by two slashes, begins at `pos`.
pub open spec fn comment_at(source: Seq<char>, pos: int) -> bool {
    has_char_at(source, pos, '/') && has_char_at(source, pos + 1, '/')
}

/// Whether a two-character operator begins at `pos`.
pub open spec fn compound_at(source: Seq<char>, pos: int) -> bool {
    &&& 0 <= pos < source.len()
    &&& compound_kind(source[pos]) is Some
    &&& has_char_at(source, pos + 1, '=')
}

/// The position of the first newline at or after `pos`, or the end of the
/// source where the line that holds `pos` is the last one.
pub open spec fn line_end(source: Seq<char>, pos: int) -> int
    decreases source.len() - pos,
{
    if 0 <= pos < source.len() && source[pos] != '\n' {
        line_end(source, pos + 1)
    } else {
        pos
    }
}

/// The number of newlines among the first `pos` characters of the source:
/// the line, counted from zero, on which position `pos` lies.
pub open spec fn newlines_before(source: Seq<char>, pos: int) -> nat
    decreases pos,
{
    if pos <= 0 {
        0
    } else if source[pos - 1] == '\n' {
        newlines_before(source, pos - 1) + 1
    } else {
        newlines_before(source, pos - 1)
    }
}

/// The result of one scan: the kind of the token found, or the reason none
/// was, and the span `[start, end)` of the source that it covers.
pub struct Scan {
    pub outcome: Result<TokenKind, ScannerErrorKind>,
    pub start: int,
    pub end: int,
}

/// The scan that begins at `pos`.
///
/// Blanks, newlines and line comments are passed over. At the end of the
/// source the scan is the empty end-of-input token. Otherwise the longest
/// operator that begins at the first significant character is taken, and a
/// character that begins none is reported, alone, as unexpected.
pub open spec fn scan_from(source: Seq<char>, pos: int) -> Scan
    decreases source.len() - pos,
{
    if !(0 <= pos < source.len()) {
        Scan { outcome: Ok(TokenKind::EOF), start: pos, end: pos }
    } else if source[pos] == '\n' || is_blank(source[pos]) {
        scan_from(source, pos + 1)
    } else if comment_at(source, pos) {
        proof {
            lemma_line_end_bounds(source, pos + 2);
        }
        scan_from(source, line_end(source, pos + 2))
    } else if compound_at(source, pos) {
        Scan { outcome: Ok(compound_kind(source[pos])->0), start: pos, end: pos + 2 }
    } else {
        match symbol_kind(source[pos]) {
            Some(kind) => Scan { outcome: Ok(kind), start: pos, end: pos + 1 },
            None => Scan {
                outcome: Err(ScannerErrorKind::UnexpectedCharacter),
                start: pos,
                end: pos + 1,
            },
        }
    }
}

/// `line_end` never moves backwards, stays within the source, passes over no
/// newline and stops only at a newline or at the end.
pub proof fn lemma_line_end_bounds(source: Seq<char>, pos: int)
    requires
        0 <= pos <= source.len(),
    ensures
        pos <= line_end(source, pos) <= source.len(),
        forall|i: int| pos <= i < line_end(source, pos) ==> source[i] != '\n',
        line_end(source, pos) < source.len() ==> source[line_end(source, pos)] == '\n',
    decreases source.len() - pos,
{
    if pos < source.len() && source[pos] != '\n' {
        lemma_line_end_bounds(source, pos + 1);
    }
}

/// Passing over one character raises the line by one if that character is a
/// newline, and leaves it otherwise.
pub proof fn lemma_newlines_step(source: Seq<char>, pos: int)
    requires
        0 <= pos,
    ensures
        newlines_before(source, pos + 1) == newlines_before(source, pos) + if source[pos] == '\n' {
            1nat
        } else {
            0nat
        },
{
}

/// A stretch of the source that holds no newline lies on one line.
pub proof fn lemma_newlines_same_line(source: Seq<char>, from: int, to: int)
    requires
        0 <= from <= to,
        forall|i: int| from <= i < to ==> source[i] != '\n',
    ensures
        newlines_before(source, to) == newlines_before(source, from),
    decreases to - from,
{
    if from < to {
        lemma_newlines_same_line(source, from, to - 1);
    }
}

/// The line of a position never decreases as the position moves forward.
pub proof fn lemma_newlines_monotonic(source: Seq<char>, from: int, to: int)
    requires
        from <= to,
    ensures
        newlines_before(source, from) <= newlines_before(source, to),
    decreases to - from,
{
    if from < to {
        lemma_newlines_monotonic(source, from, to - 1);
    }
}

/// There are no more newlines before a position than there are characters.
pub proof fn lemma_newlines_bounded(source: Seq<char>, pos: int)
    requires
        0 <= pos,
    ensures
        newlines_before(source, pos) <= pos,
    decreases pos,
{
    if pos > 0 {
        lemma_newlines_bounded(source, pos - 1);
    }
}

/// The span of a scan lies at or behind the position where the scan began and
/// within the source. It is empty exactly for the end-of-input token, which
/// is found only at the end of the source; every other span holds one or two
/// characters, none of them a newline, and begins with a character that is
/// neither passed over nor the start of a comment. Scanning again from the
/// start of the span finds the same.
pub proof fn lemma_scan_span(source: Seq<char>, pos: int)
    requires
        0 <= pos <= source.len(),
    ensures
        pos <= scan_from(source, pos).start <= scan_from(source, pos).end <= source.len(),
        scan_from(source, pos).outcome == Ok::<TokenKind, ScannerErrorKind>(TokenKind::EOF)
            <==> scan_from(source, pos).start == source.len(),
        scan_from(source, pos).outcome == Ok::<TokenKind, ScannerErrorKind>(TokenKind::EOF)
            <==> scan_from(source, pos).start == scan_from(source, pos).end,
        scan_from(source, pos).end - scan_from(source, pos).start <= 2,
        forall|i: int|
            scan_from(source, pos).start <= i < scan_from(source, pos).end ==> source[i] != '\n',
        scan_from(source, pos).start < source.len() ==> {
            let first = source[scan_from(source, pos).start];
            first != '\n' && !is_blank(first) && !comment_at(source, scan_from(source, pos).start)
        },
        scan_from(source, scan_from(source, pos).start) == scan_from(source, pos),
    decreases source.len() - pos,
{
    if pos < source.len() {
        if source[pos] == '\n' || is_blank(source[pos]) {
            lemma_scan_span(source, pos + 1);
        } else if comment_at(source, pos) {
            lemma_line_end_bounds(source, pos + 2);
            lemma_scan_span(source, line_end(source, pos + 2));
        }
    }
}

/// A run of blanks is passed over: the scan from its first character is the
/// scan from the position behind its last.
pub proof fn lemma_scan_skips_blanks(source: Seq<char>, from: int, to: int)
    requires
        0 <= from <= to <= source.len(),
        forall|i: int| from <= i < to ==> is_blank(source[i]),
    ensures
        scan_from(source, from) == scan_from(source, to),
    decreases to - from,
{
    if from < to {
        lemma_scan_skips_blanks(source, from + 1, to);
    }
}

} // verus!
