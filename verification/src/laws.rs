//! What holds of every scan, proved from the lexical rules.
//!
//! The scanner's contract says that a pull takes the scanner from a state `s`
//! to `s.after_pull()` and yields `s.pulled()`. The statements below are about
//! those two functions, and so about every pull.

use crate::grammar::{
    comment_at, compound_at, compound_kind, is_blank, lemma_line_end_bounds,
    lemma_newlines_monotonic, lemma_newlines_same_line, lemma_newlines_step,
    lemma_scan_skips_blanks, lemma_scan_span, line_end, scan_from, symbol_kind,
};
use crate::scanner::{is_end_of_input, ScannerErrorKind, ScannerErrorView, ScannerView};
use crate::token::TokenView;
use vstd::prelude::*;

verus! {

/// A pull keeps the scanner well formed and leaves the source as it is. The
/// cursor never moves backwards, and neither does the line.
pub proof fn lemma_pull_keeps_invariant(s: ScannerView)
    requires
        s.wf(),
    ensures
        s.after_pull().wf(),
        s.after_pull().source == s.source,
        s.current <= s.after_pull().start,
        s.current <= s.after_pull().current,
        s.line <= s.after_pull().line,
{
    lemma_scan_span(s.source, s.current);
    lemma_newlines_monotonic(s.source, s.current, s.after_pull().current);
}

/// Every pull consumes at least one character, but for the pull that yields
/// the end-of-input token, which leaves the cursor at the end of the source.
pub proof fn lemma_pull_makes_progress(s: ScannerView)
    requires
        s.wf(),
    ensures
        is_end_of_input(s.pulled()) || s.current < s.after_pull().current,
        is_end_of_input(s.pulled()) <==> s.after_pull().start == s.source.len(),
        is_end_of_input(s.pulled()) ==> s.pulled() == Ok::<TokenView, ScannerErrorView>(
            TokenView::end_of_input(s.after_pull().line),
        ),
{
    lemma_scan_span(s.source, s.current);
    let scan = scan_from(s.source, s.current);
    if scan.start == s.source.len() {
        assert(s.source.subrange(scan.start, scan.end) =~= Seq::<char>::empty());
    }
}

/// The text of a token is the very stretch of the source that the cursor
/// spans once the token has been pulled, and no token carries a literal. A
/// token lies on one line: the line on which it begins is the line of the
/// scanner behind it. The same holds of the line of an error.
pub proof fn lemma_pulled_span(s: ScannerView)
    requires
        s.wf(),
    ensures
        match s.pulled() {
            Ok(token) => {
                &&& token.lexeme == s.source.subrange(s.after_pull().start, s.after_pull().current)
                &&& token.lexeme.len() == s.after_pull().current - s.after_pull().start
                &&& token.literal is None
                &&& token.line == s.after_pull().line
            },
            Err(error) => error.line == s.after_pull().line,
        },
{
    lemma_scan_span(s.source, s.current);
    let scan = scan_from(s.source, s.current);
    lemma_newlines_same_line(s.source, scan.start, scan.end);
}

/// A symbol that makes up the whole source is scanned as one token of its
/// kind, with the symbol as its text, and the end-of-input token follows.
pub proof fn lemma_lone_symbol(c: char)
    requires
        symbol_kind(c) is Some,
    ensures
        ScannerView::initial(seq![c]).pulled() == Ok::<TokenView, ScannerErrorView>(
            TokenView { kind: symbol_kind(c)->0, line: 0, lexeme: seq![c], literal: None },
        ),
        ScannerView::initial(seq![c]).after_pull().pulled() == Ok::<TokenView, ScannerErrorView>(
            TokenView::end_of_input(0),
        ),
{
    let source = seq![c];
    assert(source.subrange(0, 1) =~= source);
    assert(source.subrange(1, 1) =~= Seq::<char>::empty());
    lemma_newlines_step(source, 0);
}

/// The longest operator wins: where `!`, `=`, `<` or `>` is followed by `=`,
/// the two characters are scanned together as one token.
pub proof fn lemma_compound_operator(s: ScannerView)
    requires
        s.wf(),
        compound_at(s.source, s.current),
    ensures
        s.pulled() == Ok::<TokenView, ScannerErrorView>(
            TokenView {
                kind: compound_kind(s.source[s.current])->0,
                line: s.line,
                lexeme: s.source.subrange(s.current, s.current + 2),
                literal: None,
            },
        ),
        s.after_pull() == (ScannerView { start: s.current, current: s.current + 2, ..s }),
{
    lemma_newlines_step(s.source, s.current);
}

/// A symbol that begins neither a two-character operator nor a comment is
/// scanned alone, as the token of its kind.
pub proof fn lemma_single_symbol(s: ScannerView)
    requires
        s.wf(),
        s.current < s.source.len(),
        symbol_kind(s.source[s.current]) is Some,
        !compound_at(s.source, s.current),
        !comment_at(s.source, s.current),
    ensures
        s.pulled() == Ok::<TokenView, ScannerErrorView>(
            TokenView {
                kind: symbol_kind(s.source[s.current])->0,
                line: s.line,
                lexeme: s.source.subrange(s.current, s.current + 1),
                literal: None,
            },
        ),
        s.after_pull() == (ScannerView { start: s.current, current: s.current + 1, ..s }),
{
    lemma_newlines_step(s.source, s.current);
}

/// A line comment yields no token. Scanning goes on from the end of the
/// comment's line, and where a newline ends that line, from the line behind
/// it, whose number is one greater than the comment's.
pub proof fn lemma_comment_skipped(s: ScannerView)
    requires
        s.wf(),
        comment_at(s.source, s.current),
    ensures
        s.current + 2 <= line_end(s.source, s.current + 2) <= s.source.len(),
        ScannerView::at(s.source, line_end(s.source, s.current + 2)).line == s.line,
        s.pulled() == ScannerView::at(s.source, line_end(s.source, s.current + 2)).pulled(),
        s.after_pull() == ScannerView::at(
            s.source,
            line_end(s.source, s.current + 2),
        ).after_pull(),
        line_end(s.source, s.current + 2) < s.source.len() ==> {
            let next_line = ScannerView::at(s.source, line_end(s.source, s.current + 2) + 1);
            &&& next_line.line == s.line + 1
            &&& s.pulled() == next_line.pulled()
            &&& s.after_pull() == next_line.after_pull()
        },
{
    let end = line_end(s.source, s.current + 2);
    lemma_line_end_bounds(s.source, s.current + 2);
    lemma_newlines_same_line(s.source, s.current, end);
    lemma_newlines_step(s.source, end);
}

/// A run of spaces, tabs and carriage returns yields no token: the pull from
/// its first character is the pull from the position behind its last, on the
/// same line.
pub proof fn lemma_blanks_skipped(s: ScannerView, to: int)
    requires
        s.wf(),
        s.current <= to <= s.source.len(),
        forall|i: int| s.current <= i < to ==> is_blank(s.source[i]),
    ensures
        ScannerView::at(s.source, to).line == s.line,
        s.pulled() == ScannerView::at(s.source, to).pulled(),
        s.after_pull() == ScannerView::at(s.source, to).after_pull(),
{
    lemma_scan_skips_blanks(s.source, s.current, to);
    lemma_newlines_same_line(s.source, s.current, to);
}

/// A newline yields no token and begins the next line.
pub proof fn lemma_newline_skipped(s: ScannerView)
    requires
        s.wf(),
        s.current < s.source.len(),
        s.source[s.current] == '\n',
    ensures
        ScannerView::at(s.source, s.current + 1).line == s.line + 1,
        s.pulled() == ScannerView::at(s.source, s.current + 1).pulled(),
        s.after_pull() == ScannerView::at(s.source, s.current + 1).after_pull(),
{
    lemma_newlines_step(s.source, s.current);
}

/// At the end of the source a pull yields the end-of-input token, with an
/// empty text and on the current line, and leaves the cursor at the end.
pub proof fn lemma_end_of_input(s: ScannerView)
    requires
        s.wf(),
        s.current == s.source.len(),
    ensures
        s.pulled() == Ok::<TokenView, ScannerErrorView>(TokenView::end_of_input(s.line)),
        s.after_pull() == (ScannerView { start: s.current, ..s }),
{
    assert(s.source.subrange(s.current, s.current) =~= Seq::<char>::empty());
}

/// The end of the input is a stable state: once a pull has yielded the
/// end-of-input token, the next pull yields it again, with an empty text and
/// no error, and leaves the scanner as it found it.
pub proof fn lemma_end_of_input_is_stable(s: ScannerView)
    requires
        s.wf(),
        is_end_of_input(s.pulled()),
    ensures
        s.pulled() == Ok::<TokenView, ScannerErrorView>(
            TokenView::end_of_input(s.after_pull().line),
        ),
        s.after_pull().pulled() == s.pulled(),
        s.after_pull().after_pull() == s.after_pull(),
{
    lemma_scan_span(s.source, s.current);
    let end = s.source.len() as int;
    assert(s.source.subrange(end, end) =~= Seq::<char>::empty());
}

/// Once a pull has yielded the end-of-input token, every further pull, however
/// many there are, yields that same token and leaves the scanner where the
/// first one left it.
pub proof fn lemma_end_of_input_repeats(s: ScannerView, count: nat)
    requires
        s.wf(),
        is_end_of_input(s.pulled()),
        count >= 1,
    ensures
        s.after_pulls(count) == s.after_pull(),
        s.after_pulls(count).pulled() == s.pulled(),
    decreases count,
{
    lemma_end_of_input_is_stable(s);
    assert(s.after_pull().after_pulls(0) == s.after_pull());
    if count > 1 {
        lemma_pull_keeps_invariant(s);
        lemma_end_of_input_repeats(s.after_pull(), (count - 1) as nat);
    }
}

/// A character that begins no token, and is neither blank nor a newline, is
/// reported as unexpected with the line on which it stands. It is consumed,
/// alone, so that the next pull scans from the character behind it.
pub proof fn lemma_unexpected_character(s: ScannerView)
    requires
        s.wf(),
        s.current < s.source.len(),
        symbol_kind(s.source[s.current]) is None,
        !is_blank(s.source[s.current]),
        s.source[s.current] != '\n',
    ensures
        s.pulled() == Err::<TokenView, ScannerErrorView>(
            ScannerErrorView { kind: ScannerErrorKind::UnexpectedCharacter, line: s.line },
        ),
        s.after_pull() == (ScannerView { start: s.current, current: s.current + 1, ..s }),
        s.after_pull().pulled() == ScannerView::at(s.source, s.current + 1).pulled(),
{
    lemma_newlines_step(s.source, s.current);
}

/// An error is always about one character, which begins no token, and the
/// pull that reports it stops right behind that character.
pub proof fn lemma_error_consumes_one_character(s: ScannerView)
    requires
        s.wf(),
        s.pulled() is Err,
    ensures
        s.current <= s.after_pull().start < s.source.len(),
        s.after_pull().current == s.after_pull().start + 1,
        symbol_kind(s.source[s.after_pull().start]) is None,
        !is_blank(s.source[s.after_pull().start]),
        s.source[s.after_pull().start] != '\n',
        s.pulled() == Err::<TokenView, ScannerErrorView>(
            ScannerErrorView {
                kind: ScannerErrorKind::UnexpectedCharacter,
                line: s.after_pull().line,
            },
        ),
{
    lemma_scan_span(s.source, s.current);
    lemma_newlines_step(s.source, s.after_pull().start);
}

/// Pulling to the end of the input takes at most one pull for each character
/// that is left and one more. The last pull yields the end-of-input token,
/// and no pull before it does.
pub proof fn lemma_remaining_ends_at_end_of_input(s: ScannerView)
    requires
        s.wf(),
    ensures
        1 <= s.remaining().len() <= s.source.len() - s.current + 1,
        is_end_of_input(s.remaining().last()),
        forall|i: int| 0 <= i < s.remaining().len() - 1 ==> !is_end_of_input(s.remaining()[i]),
    decreases s.source.len() - s.current,
{
    if !is_end_of_input(s.pulled()) {
        lemma_scan_span(s.source, s.current);
        lemma_pull_keeps_invariant(s);
        lemma_remaining_ends_at_end_of_input(s.after_pull());
    }
}

/// What pulling to the end of the input collects is, pull by pull, what each
/// pull in turn yields.
pub proof fn lemma_remaining_is_pull_by_pull(s: ScannerView, index: nat)
    requires
        s.wf(),
        index < s.remaining().len(),
    ensures
        s.remaining()[index as int] == s.after_pulls(index).pulled(),
    decreases index,
{
    if index > 0 {
        lemma_pull_keeps_invariant(s);
        lemma_remaining_is_pull_by_pull(s.after_pull(), (index - 1) as nat);
    }
}

} // verus!
