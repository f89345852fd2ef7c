//! The scanner: one forward pass over a source text that turns it into
//! tokens, with a bounds-checked lookahead of one byte.

use crate::charset::{
    alpha, digit, is_alpha, is_digit, lemma_run_maximal, newlines, run_end, run_len, ByteClass,
};
use crate::diagnostic::{diagnostic_views, Diagnostic, DiagnosticView};
use crate::grammar::{
    diagnostics_from, diagnostics_of, followed_by, lemma_step_advances, number_step, operator,
    punctuation, slash_step, step, string_step, tokens_from, tokens_of, word_step, Step,
};
use crate::keyword::keyword_kind;
use crate::text::{lemma_boundary_after_ascii, lemma_boundary_at_ascii, slice_text};
use crate::token::{token_views, Token, TokenKind, TokenView};
use vstd::prelude::*;
use vstd::string::StringSliceAdditionalSpecFns;
use vstd::utf8::encode_utf8_valid_utf8;

verus! {

/// What one step of the scanner hands back.
struct Advance {
    next: usize,
    line: usize,
    token: Option<Token>,
    diagnostic: Option<Diagnostic>,
}

impl View for Advance {
    type V = Step;

    closed spec fn view(&self) -> Step {
        Step {
            next: self.next as int,
            line: self.line as nat,
            token: match self.token {
                Some(token) => Some(token@),
                None => None,
            },
            diagnostic: match self.diagnostic {
                Some(diagnostic) => Some(diagnostic@),
                None => None,
            },
        }
    }
}

fn punctuation_kind(b: u8) -> (kind: Option<TokenKind>)
    ensures
        kind == punctuation(b),
{
    if b == '(' as u8 {
        Some(TokenKind::LeftParen)
    } else if b == ')' as u8 {
        Some(TokenKind::RightParen)
    } else if b == '{' as u8 {
        Some(TokenKind::LeftBrace)
    } else if b == '}' as u8 {
        Some(TokenKind::RightBrace)
    } else if b == ',' as u8 {
        Some(TokenKind::Comma)
    } else if b == '.' as u8 {
        Some(TokenKind::Dot)
    } else if b == '-' as u8 {
        Some(TokenKind::Minus)
    } else if b == '+' as u8 {
        Some(TokenKind::Plus)
    } else if b == ';' as u8 {
        Some(TokenKind::Semicolon)
    } else if b == '*' as u8 {
        Some(TokenKind::Star)
    } else {
        None
    }
}

fn operator_kinds(b: u8) -> (kinds: Option<(TokenKind, TokenKind)>)
    ensures
        kinds == operator(b),
{
    if b == '!' as u8 {
        Some((TokenKind::Bang, TokenKind::BangEqual))
    } else if b == '=' as u8 {
        Some((TokenKind::Equal, TokenKind::EqualEqual))
    } else if b == '>' as u8 {
        Some((TokenKind::Greater, TokenKind::GreaterEqual))
    } else if b == '<' as u8 {
        Some((TokenKind::Less, TokenKind::LessEqual))
    } else {
        None
    }
}

/// The byte at `pos`, or `None` at and behind the end of the source.
fn peek(src: &[u8], pos: usize) -> (byte: Option<u8>)
    ensures
        byte == if pos < src@.len() {
            Some(src@[pos as int])
        } else {
            None
        },
{
    if pos < src.len() {
        Some(src[pos])
    } else {
        None
    }
}

/// Whether the byte after `pos` is `b`.
fn next_is(src: &[u8], pos: usize, b: u8) -> (yes: bool)
    requires
        pos < src@.len() < usize::MAX,
    ensures
        yes == followed_by(src@, pos as int, b),
{
    match peek(src, pos + 1) {
        Some(byte) => byte == b,
        None => false,
    }
}

/// The step at a slash.
fn scan_slash(src: &[u8], pos: usize, line: usize) -> (adv: Advance)
    requires
        pos < src@.len() < usize::MAX,
    ensures
        adv@ == slash_step(src@, pos as int, line as nat),
{
    if next_is(src, pos, '/' as u8) {
        let next = run_end(src, pos + 2, ByteClass::CommentBody);
        Advance { next, line, token: None, diagnostic: None }
    } else {
        Advance {
            next: pos + 1,
            line,
            token: Some(Token::bare(TokenKind::Slash, line)),
            diagnostic: None,
        }
    }
}

/// The step at an opening quote.
fn scan_string(source: &str, pos: usize, line: usize) -> (adv: Advance)
    requires
        pos < source.spec_bytes().len(),
        source.spec_bytes()[pos as int] == '"' as u8,
        line <= pos + 1,
    ensures
        adv@ == string_step(source.spec_bytes(), pos as int, line as nat),
        adv.line <= adv.next,
{
    let src = source.as_bytes();
    let len = src.len();
    let mut close: usize = pos + 1;
    let mut reached: usize = line;
    proof {
        assert(src@.subrange(pos + 1, close as int) =~= Seq::<u8>::empty());
    }
    while close < len && src[close] != '"' as u8
        invariant
            len == src@.len(),
            pos + 1 <= close <= src@.len(),
            close + run_len(src@, close as int, ByteClass::StringBody) == pos + 1 + run_len(
                src@,
                pos + 1,
                ByteClass::StringBody,
            ),
            reached == line + newlines(src@.subrange(pos + 1, close as int)),
            reached <= close,
        decreases src@.len() - close,
    {
        proof {
            assert(src@.subrange(pos + 1, close + 1).drop_last() =~= src@.subrange(
                pos + 1,
                close as int,
            ));
        }
        if src[close] == '\n' as u8 {
            reached += 1;
        }
        close += 1;
    }
    if close < len {
        proof {
            encode_utf8_valid_utf8(source@);
            lemma_boundary_after_ascii(src@, pos as int);
            lemma_boundary_at_ascii(src@, close as int);
        }
        let body = slice_text(source, pos + 1, close);
        Advance {
            next: close + 1,
            line: reached,
            token: Some(Token::with_text(TokenKind::String, body, reached)),
            diagnostic: None,
        }
    } else {
        Advance {
            next: close,
            line: reached,
            token: None,
            diagnostic: Some(Diagnostic::UnterminatedString { line }),
        }
    }
}

/// The step at a digit.
fn scan_number(source: &str, pos: usize, line: usize) -> (adv: Advance)
    requires
        pos < source.spec_bytes().len(),
        digit(source.spec_bytes()[pos as int]),
    ensures
        adv@ == number_step(source.spec_bytes(), pos as int, line as nat),
{
    let src = source.as_bytes();
    let whole = run_end(src, pos, ByteClass::Digit);
    let end = if whole < src.len() && src[whole] == '.' as u8 {
        run_end(src, whole + 1, ByteClass::Digit)
    } else {
        whole
    };
    proof {
        encode_utf8_valid_utf8(source@);
        lemma_run_maximal(src@, pos as int, ByteClass::Digit);
        if whole < end {
            lemma_run_maximal(src@, whole + 1, ByteClass::Digit);
        }
        lemma_boundary_at_ascii(src@, pos as int);
        lemma_boundary_after_ascii(src@, end - 1);
    }
    let text = slice_text(source, pos, end);
    Advance {
        next: end,
        line,
        token: Some(Token::with_text(TokenKind::Number, text, line)),
        diagnostic: None,
    }
}

/// The step at a letter or underscore.
fn scan_word(source: &str, pos: usize, line: usize) -> (adv: Advance)
    requires
        pos < source.spec_bytes().len(),
        alpha(source.spec_bytes()[pos as int]),
    ensures
        adv@ == word_step(source.spec_bytes(), pos as int, line as nat),
{
    let src = source.as_bytes();
    let end = run_end(src, pos, ByteClass::Word);
    proof {
        encode_utf8_valid_utf8(source@);
        lemma_run_maximal(src@, pos as int, ByteClass::Word);
        lemma_boundary_at_ascii(src@, pos as int);
        lemma_boundary_after_ascii(src@, end - 1);
    }
    let text = slice_text(source, pos, end);
    let kind = match keyword_kind(text.as_str().as_bytes()) {
        Some(kind) => kind,
        None => TokenKind::Identifier,
    };
    Advance { next: end, line, token: Some(Token::with_text(kind, text, line)), diagnostic: None }
}

/// One step of the scan.
fn advance(source: &str, pos: usize, line: usize) -> (adv: Advance)
    requires
        pos < source.spec_bytes().len() < usize::MAX,
        line <= pos + 1,
    ensures
        adv@ == step(source.spec_bytes(), pos as int, line as nat),
        adv.line <= adv.next + 1,
{
    let src = source.as_bytes();
    let b: u8 = src[pos];
    if let Some(kind) = punctuation_kind(b) {
        Advance { next: pos + 1, line, token: Some(Token::bare(kind, line)), diagnostic: None }
    } else if let Some(kinds) = operator_kinds(b) {
        let (one, two) = kinds;
        if next_is(src, pos, '=' as u8) {
            Advance { next: pos + 2, line, token: Some(Token::bare(two, line)), diagnostic: None }
        } else {
            Advance { next: pos + 1, line, token: Some(Token::bare(one, line)), diagnostic: None }
        }
    } else if b == '/' as u8 {
        scan_slash(src, pos, line)
    } else if b == ' ' as u8 || b == '\r' as u8 || b == '\t' as u8 {
        Advance { next: pos + 1, line, token: None, diagnostic: None }
    } else if b == '\n' as u8 {
        Advance { next: pos + 1, line: line + 1, token: None, diagnostic: None }
    } else if b == '"' as u8 {
        scan_string(source, pos, line)
    } else if is_digit(&b) {
        scan_number(source, pos, line)
    } else if is_alpha(&b) {
        scan_word(source, pos, line)
    } else {
        Advance {
            next: pos + 1,
            line,
            token: None,
            diagnostic: Some(Diagnostic::UnknownCharacter { line, byte: b }),
        }
    }
}

/// Scans `source` into its tokens, which end with the `Eof` sentinel, and
/// appends the diagnostics of the scan to `diagnostics`, in the order in
/// which they arise. Malformed input shows in the diagnostics alone: the
/// tokens are those of the grammar whatever the source holds.
///
/// The line counter may reach one more than the length of the source, so
/// the source must be shorter than `usize::MAX` bytes.
pub fn scan_with_diagnostics(
    source: &str,
    diagnostics: &mut Vec<Diagnostic>,
) -> (tokens: Vec<Token>)
    requires
        source.len() < usize::MAX,
    ensures
        token_views(tokens@) == tokens_of(source.spec_bytes()),
        diagnostic_views(final(diagnostics)@) == diagnostic_views(old(diagnostics)@)
            + diagnostics_of(source.spec_bytes()),
{
    let src = source.as_bytes();
    let len = src.len();
    let mut tokens: Vec<Token> = Vec::new();
    let mut current: usize = 0;
    let mut line: usize = 1;
    let ghost target = diagnostic_views(diagnostics@) + diagnostics_of(src@);
    proof {
        assert(token_views(tokens@) + tokens_from(src@, 0, 1) =~= tokens_of(src@));
    }
    while current < len
        invariant
            src@ == source.spec_bytes(),
            len == src@.len(),
            current <= len < usize::MAX,
            line <= current + 1,
            token_views(tokens@) + tokens_from(src@, current as int, line as nat) == tokens_of(
                src@,
            ),
            diagnostic_views(diagnostics@) + diagnostics_from(src@, current as int, line as nat)
                == target,
        decreases src@.len() - current,
    {
        let ghost seen = token_views(tokens@);
        let ghost said = diagnostic_views(diagnostics@);
        let adv = advance(source, current, line);
        proof {
            lemma_step_advances(src@, current as int, line as nat);
        }
        let Advance { next, line: reached, token, diagnostic } = adv;
        if let Some(token) = token {
            tokens.push(token);
            proof {
                assert(token_views(tokens@) =~= seen.push(token@));
                assert(seen.push(token@) + tokens_from(src@, next as int, reached as nat) =~= seen
                    + (seq![token@] + tokens_from(src@, next as int, reached as nat)));
            }
        }
        if let Some(diagnostic) = diagnostic {
            diagnostics.push(diagnostic);
            proof {
                assert(diagnostic_views(diagnostics@) =~= said.push(diagnostic@));
                assert(said.push(diagnostic@) + diagnostics_from(
                    src@,
                    next as int,
                    reached as nat,
                ) =~= said + (seq![diagnostic@] + diagnostics_from(
                    src@,
                    next as int,
                    reached as nat,
                )));
            }
        }
        current = next;
        line = reached;
    }
    let ghost seen = token_views(tokens@);
    tokens.push(Token::bare(TokenKind::Eof, line));
    proof {
        assert(token_views(tokens@) =~= seen.push(TokenView::eof(line as nat)));
        assert(seen.push(TokenView::eof(line as nat)) =~= seen + seq![TokenView::eof(line as nat)]);
        assert(diagnostic_views(diagnostics@) + Seq::<DiagnosticView>::empty() =~= diagnostic_views(
            diagnostics@,
        ));
    }
    tokens
}

/// Scans `source` into its tokens, which end with the `Eof` sentinel. The
/// diagnostics of the scan are not kept: `scan_with_diagnostics` hands them
/// out.
pub fn scan(source: &str) -> (tokens: Vec<Token>)
    requires
        source.len() < usize::MAX,
    ensures
        token_views(tokens@) == tokens_of(source.spec_bytes()),
{
    let mut diagnostics: Vec<Diagnostic> = Vec::new();
    scan_with_diagnostics(source, &mut diagnostics)
}

} // verus!
