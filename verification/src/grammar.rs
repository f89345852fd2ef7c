//! The lexical grammar: what one step of the scan does at a position of the
//! source, and the tokens and diagnostics that the steps add up to.

use crate::charset::{
    alpha, blank, digit, lemma_run_in_bounds, newline, newlines, quote, run_len, ByteClass,
};
use crate::diagnostic::DiagnosticView;
use crate::keyword::word_kind;
use crate::token::{TokenKind, TokenView};
use vstd::prelude::*;

verus! {

/// The outcome of one step: where the cursor and the line counter stand
/// after it, and what it produced.
pub struct Step {
    /// The cursor after the step.
    pub next: int,
    /// The line counter after the step.
    pub line: nat,
    /// The token that the step emitted, if any.
    pub token: Option<TokenView>,
    /// The diagnostic that the step reported, if any.
    pub diagnostic: Option<DiagnosticView>,
}

impl Step {
    /// A step that emits `token` and leaves the line counter on its line.
    pub open spec fn emit(next: int, token: TokenView) -> Step {
        Step { next, line: token.line, token: Some(token), diagnostic: None }
    }

    /// A step that produces nothing.
    pub open spec fn skip(next: int, line: nat) -> Step {
        Step { next, line, token: None, diagnostic: None }
    }

    /// A step that reports `diagnostic` and emits no token.
    pub open spec fn report(next: int, line: nat, diagnostic: DiagnosticView) -> Step {
        Step { next, line, token: None, diagnostic: Some(diagnostic) }
    }
}

/// The kind of the punctuation mark or operator that byte `b` is all by
/// itself, whatever follows it.
pub open spec fn punctuation(b: u8) -> Option<TokenKind> {
    if b == '(' as u8 {
        Some(TokenKind::LeftParen)
    } else if b == ')' as u8 {
        Some(TokenKind::RightParen)
    } else if b == '{' as u8 {
        Some(TokenKind::LeftBrace)
    } else if b == '}' as u8 {
        Some(TokenKind::RightBrace)
    } else if b == ',' as u8 {
        Some(TokenKind::Comma)
    } else if b == '.' as u8 {
        Some(TokenKind::Dot)
    } else if b == '-' as u8 {
        Some(TokenKind::Minus)
    } else if b == '+' as u8 {
        Some(TokenKind::Plus)
    } else if b == ';' as u8 {
        Some(TokenKind::Semicolon)
    } else if b == '*' as u8 {
        Some(TokenKind::Star)
    } else {
        None
    }
}

/// For a byte `b` that starts a one- or two-character operator: the kind
/// of `b` alone, and the kind of `b` followed by `=`.
pub open spec fn operator(b: u8) -> Option<(TokenKind, TokenKind)> {
    if b == '!' as u8 {
        Some((TokenKind::Bang, TokenKind::BangEqual))
    } else if b == '=' as u8 {
        Some((TokenKind::Equal, TokenKind::EqualEqual))
    } else if b == '>' as u8 {
        Some((TokenKind::Greater, TokenKind::GreaterEqual))
    } else if b == '<' as u8 {
        Some((TokenKind::Less, TokenKind::LessEqual))
    } else {
        None
    }
}

/// Whether the byte after position `pos` exists and is `b`. At the end of
/// the source there is no such byte.
pub open spec fn followed_by(src: Seq<u8>, pos: int, b: u8) -> bool {
    pos + 1 < src.len() && src[pos + 1] == b
}

/// The kind of the token that byte `b` makes where nothing joins it: a
/// punctuation mark, the one-character form of an operator, or the slash.
pub open spec fn lone_kind(b: u8) -> Option<TokenKind> {
    if let Some(kind) = punctuation(b) {
        Some(kind)
    } else if let Some(kinds) = operator(b) {
        Some(kinds.0)
    } else if b == '/' as u8 {
        Some(TokenKind::Slash)
    } else {
        None
    }
}

/// The bytes that no rule of the grammar starts with.
pub open spec fn unknown(b: u8) -> bool {
    lone_kind(b) is None && !blank(b) && !newline(b) && !quote(b) && !digit(b) && !alpha(b)
}

/// The step at an operator byte: the two-character operator wherever `=`
/// follows, else the one-character operator.
pub open spec fn operator_step(
    src: Seq<u8>,
    pos: int,
    line: nat,
    kinds: (TokenKind, TokenKind),
) -> Step {
    if followed_by(src, pos, '=' as u8) {
        Step::emit(pos + 2, TokenView::bare(kinds.1, line))
    } else {
        Step::emit(pos + 1, TokenView::bare(kinds.0, line))
    }
}

/// The step at a slash: a line comment where a second slash follows, which
/// runs up to the next newline or the end of the source and leaves the
/// newline in place; else the `Slash` token.
pub open spec fn slash_step(src: Seq<u8>, pos: int, line: nat) -> Step {
    if followed_by(src, pos, '/' as u8) {
        Step::skip(pos + 2 + run_len(src, pos + 2, ByteClass::CommentBody), line)
    } else {
        Step::emit(pos + 1, TokenView::bare(TokenKind::Slash, line))
    }
}

/// The step at an opening quote. The body runs up to the next quote. Every
/// newline in it advances the line counter. With a closing quote the step
/// emits a `String` token that carries the body, on the line of the
/// closing quote. Without one the step reports the string as unterminated,
/// on the line on which it started, and ends at the end of the source.
pub open spec fn string_step(src: Seq<u8>, pos: int, line: nat) -> Step {
    let close = pos + 1 + run_len(src, pos + 1, ByteClass::StringBody);
    let body = src.subrange(pos + 1, close);
    let reached = line + newlines(body);
    if close < src.len() {
        Step::emit(close + 1, TokenView::with_text(TokenKind::String, body, reached))
    } else {
        Step::report(close, reached, DiagnosticView::UnterminatedString { line })
    }
}

/// Where the number that starts at `pos` ends: behind its digits and,
/// where a dot follows them, behind the dot and the digits after it. The
/// dot belongs to the number even where no digit follows it.
pub open spec fn number_end(src: Seq<u8>, pos: int) -> int {
    let whole = pos + run_len(src, pos, ByteClass::Digit);
    if whole < src.len() && src[whole] == '.' as u8 {
        whole + 1 + run_len(src, whole + 1, ByteClass::Digit)
    } else {
        whole
    }
}

/// The step at a digit: a `Number` token that carries the whole number.
pub open spec fn number_step(src: Seq<u8>, pos: int, line: nat) -> Step {
    let end = number_end(src, pos);
    Step::emit(end, TokenView::with_text(TokenKind::Number, src.subrange(pos, end), line))
}

/// The step at a letter or underscore: the longest word from there, as the
/// reserved word that it spells or else as an `Identifier`.
pub open spec fn word_step(src: Seq<u8>, pos: int, line: nat) -> Step {
    let end = pos + run_len(src, pos, ByteClass::Word);
    let text = src.subrange(pos, end);
    Step::emit(end, TokenView::with_text(word_kind(text), text, line))
}

/// One step of the scan, at position `pos` of `src` with the line counter
/// at `line`.
pub open spec fn step(src: Seq<u8>, pos: int, line: nat) -> Step
    recommends
        0 <= pos < src.len(),
{
    let b = src[pos];
    if let Some(kind) = punctuation(b) {
        Step::emit(pos + 1, TokenView::bare(kind, line))
    } else if let Some(kinds) = operator(b) {
        operator_step(src, pos, line, kinds)
    } else if b == '/' as u8 {
        slash_step(src, pos, line)
    } else if blank(b) {
        Step::skip(pos + 1, line)
    } else if newline(b) {
        Step::skip(pos + 1, line + 1)
    } else if quote(b) {
        string_step(src, pos, line)
    } else if digit(b) {
        number_step(src, pos, line)
    } else if alpha(b) {
        word_step(src, pos, line)
    } else {
        Step::report(pos + 1, line, DiagnosticView::UnknownCharacter { line, byte: b })
    }
}

/// Every step consumes at least one byte and stays inside the source.
pub proof fn lemma_step_advances(src: Seq<u8>, pos: int, line: nat)
    requires
        0 <= pos < src.len(),
    ensures
        pos < step(src, pos, line).next <= src.len(),
{
    let b = src[pos];
    if punctuation(b) is Some {
    } else if operator(b) is Some {
    } else if b == '/' as u8 {
        if followed_by(src, pos, '/' as u8) {
            lemma_run_in_bounds(src, pos + 2, ByteClass::CommentBody);
        }
    } else if blank(b) {
    } else if newline(b) {
    } else if quote(b) {
        lemma_run_in_bounds(src, pos + 1, ByteClass::StringBody);
    } else if digit(b) {
        lemma_run_in_bounds(src, pos, ByteClass::Digit);
        let whole = pos + run_len(src, pos, ByteClass::Digit);
        if whole < src.len() {
            lemma_run_in_bounds(src, whole + 1, ByteClass::Digit);
        }
    } else if alpha(b) {
        lemma_run_in_bounds(src, pos, ByteClass::Word);
    } else {
    }
}

#[via_fn]
proof fn tokens_from_terminates(src: Seq<u8>, pos: int, line: nat) {
    if 0 <= pos < src.len() {
        lemma_step_advances(src, pos, line);
    }
}

#[via_fn]
proof fn diagnostics_from_terminates(src: Seq<u8>, pos: int, line: nat) {
    if 0 <= pos < src.len() {
        lemma_step_advances(src, pos, line);
    }
}

/// The tokens of the scan from position `pos` on, with the line counter at
/// `line`: those of the steps, in their order, and the end-of-input
/// sentinel on the line reached.
pub open spec fn tokens_from(src: Seq<u8>, pos: int, line: nat) -> Seq<TokenView>
    decreases src.len() - pos,
    via tokens_from_terminates
{
    if 0 <= pos < src.len() {
        let s = step(src, pos, line);
        let rest = tokens_from(src, s.next, s.line);
        match s.token {
            Some(token) => seq![token] + rest,
            None => rest,
        }
    } else {
        seq![TokenView::eof(line)]
    }
}

/// The diagnostics of the scan from position `pos` on, in their order.
pub open spec fn diagnostics_from(src: Seq<u8>, pos: int, line: nat) -> Seq<DiagnosticView>
    decreases src.len() - pos,
    via diagnostics_from_terminates
{
    if 0 <= pos < src.len() {
        let s = step(src, pos, line);
        let rest = diagnostics_from(src, s.next, s.line);
        match s.diagnostic {
            Some(diagnostic) => seq![diagnostic] + rest,
            None => rest,
        }
    } else {
        Seq::empty()
    }
}

/// The stretch of the source that each token of the scan from `pos` on was
/// made from, as the offsets of its first byte and of the byte behind its
/// last. The sentinel stands for the empty stretch at the end of the source.
pub open spec fn spans_from(src: Seq<u8>, pos: int, line: nat) -> Seq<(int, int)>
    decreases src.len() - pos,
    via spans_from_terminates
{
    if 0 <= pos < src.len() {
        let s = step(src, pos, line);
        let rest = spans_from(src, s.next, s.line);
        match s.token {
            Some(_) => seq![(pos, s.next)] + rest,
            None => rest,
        }
    } else {
        seq![(src.len() as int, src.len() as int)]
    }
}

#[via_fn]
proof fn spans_from_terminates(src: Seq<u8>, pos: int, line: nat) {
    if 0 <= pos < src.len() {
        lemma_step_advances(src, pos, line);
    }
}

/// Whether the scan from position `from` comes to stand at position `pos`
/// between two steps, or at its end.
pub open spec fn reaches(src: Seq<u8>, from: int, pos: int) -> bool
    decreases src.len() - from,
    via reaches_terminates
{
    from == pos || (0 <= from < src.len() && from < pos && reaches(
        src,
        step(src, from, 1).next,
        pos,
    ))
}

#[via_fn]
proof fn reaches_terminates(src: Seq<u8>, from: int, pos: int) {
    if 0 <= from < src.len() {
        lemma_step_advances(src, from, 1);
    }
}

/// The line on which position `pos` of `src` lies: one more than the
/// number of newlines before it.
pub open spec fn line_at(src: Seq<u8>, pos: int) -> nat {
    1 + newlines(src.subrange(0, pos))
}

/// The tokens of `src`: the scan starts at its first byte, on line 1.
pub open spec fn tokens_of(src: Seq<u8>) -> Seq<TokenView> {
    tokens_from(src, 0, 1)
}

/// The stretch of `src` that each of its tokens was made from.
pub open spec fn spans_of(src: Seq<u8>) -> Seq<(int, int)> {
    spans_from(src, 0, 1)
}

/// The diagnostics of `src`.
pub open spec fn diagnostics_of(src: Seq<u8>) -> Seq<DiagnosticView> {
    diagnostics_from(src, 0, 1)
}

} // verus!
