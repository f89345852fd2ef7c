//! What holds of every scan, proved from the grammar.

use crate::charset::{
    alpha, alphanumeric, blank, digit, lemma_newlines_concat, lemma_run_in_bounds,
    lemma_run_maximal, lemma_run_unique, newline, newlines, quote, run_len, ByteClass,
};
use crate::diagnostic::DiagnosticView;
use crate::grammar::{
    diagnostics_from, diagnostics_of, followed_by, lemma_step_advances, line_at, lone_kind,
    operator, reaches, spans_from, spans_of, step, tokens_from, tokens_of, unknown, Step,
};
use crate::keyword::{lemma_spellings, reserved, spelling, word_kind};
use crate::token::{TokenKind, TokenView};
use vstd::prelude::*;

verus! {

/// A stretch without a newline byte counts no newline.
pub proof fn lemma_no_newlines(s: Seq<u8>)
    requires
        forall|i: int| 0 <= i < s.len() ==> !newline(#[trigger] s[i]),
    ensures
        newlines(s) == 0,
    decreases s.len(),
{
    if s.len() > 0 {
        lemma_no_newlines(s.drop_last());
    }
}

/// Every step moves the line counter on by the number of newlines among
/// the bytes that it consumes.
pub proof fn lemma_step_counts_newlines(src: Seq<u8>, pos: int, line: nat)
    requires
        0 <= pos < src.len(),
    ensures
        step(src, pos, line).line == line + newlines(
            src.subrange(pos, step(src, pos, line).next),
        ),
{
    let s = step(src, pos, line);
    let b = src[pos];
    lemma_step_advances(src, pos, line);
    let eaten = src.subrange(pos, s.next);
    if quote(b) {
        let close = pos + 1 + run_len(src, pos + 1, ByteClass::StringBody);
        let body = src.subrange(pos + 1, close);
        assert(newlines(seq![b]) == 0) by {
            lemma_no_newlines(seq![b]);
        }
        lemma_newlines_concat(seq![b], body);
        if close < src.len() {
            lemma_run_maximal(src, pos + 1, ByteClass::StringBody);
            assert(eaten =~= (seq![b] + body) + seq![src[close]]);
            assert(newlines(seq![src[close]]) == 0) by {
                lemma_no_newlines(seq![src[close]]);
            }
            lemma_newlines_concat(seq![b] + body, seq![src[close]]);
        } else {
            assert(eaten =~= seq![b] + body);
        }
    } else if newline(b) {
        assert(eaten =~= seq![b]);
        assert(eaten.drop_last() =~= Seq::<u8>::empty());
        assert(newlines(eaten) == 1) by {
            reveal_with_fuel(newlines, 2);
        }
    } else {
        assert forall|i: int| 0 <= i < eaten.len() implies !newline(#[trigger] eaten[i]) by {
            if b == '/' as u8 && followed_by(src, pos, '/' as u8) {
                lemma_run_maximal(src, pos + 2, ByteClass::CommentBody);
            } else if digit(b) {
                lemma_run_maximal(src, pos, ByteClass::Digit);
                let whole = pos + run_len(src, pos, ByteClass::Digit);
                lemma_run_in_bounds(src, pos, ByteClass::Digit);
                if whole < src.len() && src[whole] == '.' as u8 {
                    lemma_run_maximal(src, whole + 1, ByteClass::Digit);
                }
            } else if alpha(b) {
                lemma_run_maximal(src, pos, ByteClass::Word);
            }
        }
        lemma_no_newlines(eaten);
    }
}

/// A step that starts on the line of its position ends on the line of the
/// position that it reaches.
pub proof fn lemma_step_keeps_line(src: Seq<u8>, pos: int)
    requires
        0 <= pos < src.len(),
    ensures
        step(src, pos, line_at(src, pos)).line == line_at(
            src,
            step(src, pos, line_at(src, pos)).next,
        ),
{
    let line = line_at(src, pos);
    let next = step(src, pos, line).next;
    lemma_step_advances(src, pos, line);
    lemma_step_counts_newlines(src, pos, line);
    lemma_newlines_concat(src.subrange(0, pos), src.subrange(pos, next));
    assert(src.subrange(0, next) =~= src.subrange(0, pos) + src.subrange(pos, next));
}

/// No step emits the end-of-input sentinel, and what a step emits is well
/// formed: it carries text exactly where its kind calls for text.
pub proof fn law_step_token_well_formed(src: Seq<u8>, pos: int, line: nat)
    requires
        0 <= pos < src.len(),
    ensures
        match step(src, pos, line).token {
            Some(token) => token.kind != TokenKind::Eof && token.well_formed(),
            None => true,
        },
{
}

/// There is a span for every token.
pub proof fn lemma_spans_match_tokens(src: Seq<u8>, pos: int, line: nat)
    requires
        0 <= pos <= src.len(),
    ensures
        spans_from(src, pos, line).len() == tokens_from(src, pos, line).len(),
        tokens_from(src, pos, line).len() >= 1,
    decreases src.len() - pos,
{
    if pos < src.len() {
        let s = step(src, pos, line);
        lemma_step_advances(src, pos, line);
        lemma_spans_match_tokens(src, s.next, s.line);
    }
}

/// No token of the scan from `pos` on starts before `pos`.
pub proof fn lemma_spans_start_late(src: Seq<u8>, pos: int, line: nat, i: int)
    requires
        0 <= pos <= src.len(),
        0 <= i < spans_from(src, pos, line).len(),
    ensures
        pos <= spans_from(src, pos, line)[i].0 <= src.len(),
    decreases src.len() - pos,
{
    if pos < src.len() {
        let s = step(src, pos, line);
        lemma_step_advances(src, pos, line);
        if s.token is Some {
            if i > 0 {
                lemma_spans_start_late(src, s.next, s.line, i - 1);
            }
        } else {
            lemma_spans_start_late(src, s.next, s.line, i);
        }
    }
}

/// The law of the scan from a position, of which `law_token_origin` is the
/// case of the whole source.
pub proof fn lemma_token_origin_from(src: Seq<u8>, pos: int, i: int)
    requires
        0 <= pos <= src.len(),
        0 <= i < tokens_from(src, pos, line_at(src, pos)).len() - 1,
    ensures
        ({
            let token = tokens_from(src, pos, line_at(src, pos))[i];
            let spans = spans_from(src, pos, line_at(src, pos));
            let (start, end) = spans[i];
            &&& spans.len() == tokens_from(src, pos, line_at(src, pos)).len()
            &&& pos <= start < end <= spans[i + 1].0 <= src.len()
            &&& step(src, start, line_at(src, start)) == Step::emit(end, token)
            &&& token.line == line_at(src, end)
        }),
    decreases src.len() - pos,
{
    let line = line_at(src, pos);
    lemma_spans_match_tokens(src, pos, line);
    if pos < src.len() {
        let s = step(src, pos, line);
        lemma_step_advances(src, pos, line);
        lemma_step_keeps_line(src, pos);
        lemma_spans_match_tokens(src, s.next, s.line);
        if s.token is Some {
            if i == 0 {
                lemma_spans_start_late(src, s.next, s.line, 0);
            } else {
                lemma_token_origin_from(src, s.next, i - 1);
            }
        } else {
            lemma_token_origin_from(src, s.next, i);
        }
    }
}

/// Tokens come in the order of the source, and each is what one step makes
/// of the source at its place. For every token but the sentinel: its span
/// is not empty, lies inside the source and ends before the span of the next
/// token starts; the token is what the step at the start of the span emits
/// when it is taken on the line of that position, and the step consumes
/// exactly the span; and the line of the token is the line on which the
/// span ends.
pub proof fn law_token_origin(src: Seq<u8>, i: int)
    requires
        0 <= i < tokens_of(src).len() - 1,
    ensures
        ({
            let token = tokens_of(src)[i];
            let (start, end) = spans_of(src)[i];
            &&& spans_of(src).len() == tokens_of(src).len()
            &&& 0 <= start < end <= spans_of(src)[i + 1].0 <= src.len()
            &&& step(src, start, line_at(src, start)) == Step::emit(end, token)
            &&& token.line == line_at(src, end)
        }),
{
    assert(src.subrange(0, 0) =~= Seq::<u8>::empty());
    assert(line_at(src, 0) == 1);
    lemma_token_origin_from(src, 0, i);
}

/// A token carries exactly the text that it was made from. The text of an
/// identifier, a number or a reserved word is its whole span. The span of a
/// string starts and ends with a quote, and its text is what lies between
/// the two. Punctuation and operators carry no text, and their span is one
/// or two bytes long.
pub proof fn law_token_text(src: Seq<u8>, i: int)
    requires
        0 <= i < tokens_of(src).len() - 1,
    ensures
        ({
            let token = tokens_of(src)[i];
            let (start, end) = spans_of(src)[i];
            if token.kind == TokenKind::String {
                &&& start + 2 <= end
                &&& quote(src[start])
                &&& quote(src[end - 1])
                &&& token.text == Some(src.subrange(start + 1, end - 1))
            } else if token.kind.carries_text() {
                token.text == Some(src.subrange(start, end))
            } else {
                &&& token.text is None
                &&& end - start <= 2
            }
        }),
{
    law_token_origin(src, i);
    let start = spans_of(src)[i].0;
    if quote(src[start]) {
        lemma_run_in_bounds(src, start + 1, ByteClass::StringBody);
        lemma_run_maximal(src, start + 1, ByteClass::StringBody);
    }
}

/// Every scan ends with exactly one end-of-input sentinel: the last token
/// is the sentinel, on the last line that the source reaches, and no token
/// before it is one.
pub proof fn law_single_eof(src: Seq<u8>)
    ensures
        tokens_of(src).len() >= 1,
        tokens_of(src).last() == TokenView::eof(line_at(src, src.len() as int)),
        spans_of(src).last() == (src.len() as int, src.len() as int),
        forall|i: int|
            0 <= i < tokens_of(src).len() - 1 ==> (#[trigger] tokens_of(src)[i]).kind
                != TokenKind::Eof,
{
    assert(src.subrange(0, 0) =~= Seq::<u8>::empty());
    lemma_last_is_eof(src, 0);
    assert forall|i: int| 0 <= i < tokens_of(src).len() - 1 implies (#[trigger] tokens_of(
        src,
    )[i]).kind != TokenKind::Eof by {
        law_token_origin(src, i);
        law_step_token_well_formed(src, spans_of(src)[i].0, line_at(src, spans_of(src)[i].0));
    }
}

/// The scan from a position ends with the sentinel, on the last line of
/// the source.
pub proof fn lemma_last_is_eof(src: Seq<u8>, pos: int)
    requires
        0 <= pos <= src.len(),
    ensures
        tokens_from(src, pos, line_at(src, pos)).len() >= 1,
        tokens_from(src, pos, line_at(src, pos)).last() == TokenView::eof(
            line_at(src, src.len() as int),
        ),
        spans_from(src, pos, line_at(src, pos)).last() == (src.len() as int, src.len() as int),
    decreases src.len() - pos,
{
    let line = line_at(src, pos);
    lemma_spans_match_tokens(src, pos, line);
    if pos < src.len() {
        let s = step(src, pos, line);
        lemma_step_advances(src, pos, line);
        lemma_step_keeps_line(src, pos);
        lemma_spans_match_tokens(src, s.next, s.line);
        lemma_last_is_eof(src, s.next);
    }
}

/// A longer stretch from the start of the source lies on a later line, or
/// on the same.
pub proof fn lemma_line_at_grows(src: Seq<u8>, p: int, q: int)
    requires
        0 <= p <= q <= src.len(),
    ensures
        line_at(src, p) <= line_at(src, q),
{
    lemma_newlines_concat(src.subrange(0, p), src.subrange(p, q));
    assert(src.subrange(0, q) =~= src.subrange(0, p) + src.subrange(p, q));
}

/// Lines never go back: a later token is on the line of an earlier one or
/// on a line after it.
pub proof fn law_lines_ascend(src: Seq<u8>, i: int, j: int)
    requires
        0 <= i <= j < tokens_of(src).len(),
    ensures
        tokens_of(src)[i].line <= tokens_of(src)[j].line,
    decreases j - i,
{
    if i < j {
        law_lines_ascend(src, i + 1, j);
        law_token_origin(src, i);
        let end = spans_of(src)[i].1;
        if i + 1 < tokens_of(src).len() - 1 {
            law_token_origin(src, i + 1);
            lemma_line_at_grows(src, end, spans_of(src)[i + 1].1);
        } else {
            law_single_eof(src);
            lemma_line_at_grows(src, end, src.len() as int);
        }
    }
}

/// The scan from a position yields at most one token for each byte that is
/// left, and the sentinel.
pub proof fn lemma_token_count_from(src: Seq<u8>, pos: int, line: nat)
    requires
        0 <= pos <= src.len(),
    ensures
        tokens_from(src, pos, line).len() <= src.len() - pos + 1,
    decreases src.len() - pos,
{
    if pos < src.len() {
        let s = step(src, pos, line);
        lemma_step_advances(src, pos, line);
        lemma_token_count_from(src, s.next, s.line);
    }
}

/// A scan yields at most one token for each byte of the source, and the
/// sentinel.
pub proof fn law_token_count(src: Seq<u8>)
    ensures
        1 <= tokens_of(src).len() <= src.len() + 1,
{
    lemma_token_count_from(src, 0, 1);
    lemma_spans_match_tokens(src, 0, 1);
}

/// A run that ends inside the first `len` bytes is the same run in the
/// source cut off behind them.
pub proof fn lemma_run_local(src: Seq<u8>, from: int, len: int, class: ByteClass)
    requires
        0 <= from <= len <= src.len(),
        from + run_len(src, from, class) <= len,
    ensures
        run_len(src.take(len), from, class) == run_len(src, from, class),
    decreases len - from,
{
    if from < len && class.admits(src[from]) {
        lemma_run_local(src, from + 1, len, class);
    }
}

/// A step sees no more of the source than it consumes, but for the one
/// byte of lookahead that it leaves in place: a step that ends inside the
/// first `len` bytes is the same step in the source cut off behind them.
pub proof fn lemma_step_local(src: Seq<u8>, pos: int, line: nat, len: int)
    requires
        0 <= pos < len <= src.len(),
        step(src, pos, line).next <= len,
    ensures
        step(src.take(len), pos, line) == step(src, pos, line),
{
    let cut = src.take(len);
    let b = src[pos];
    let next = step(src, pos, line).next;
    assert(cut[pos] == b);
    assert(cut.subrange(pos, next) =~= src.subrange(pos, next));
    if quote(b) {
        let close = pos + 1 + run_len(src, pos + 1, ByteClass::StringBody);
        lemma_run_in_bounds(src, pos + 1, ByteClass::StringBody);
        if close < src.len() {
            lemma_run_local(src, pos + 1, len, ByteClass::StringBody);
        } else {
            assert(cut =~= src);
        }
        assert(cut.subrange(pos + 1, close) =~= src.subrange(pos + 1, close));
    } else if digit(b) {
        let whole = pos + run_len(src, pos, ByteClass::Digit);
        lemma_run_in_bounds(src, pos, ByteClass::Digit);
        lemma_run_local(src, pos, len, ByteClass::Digit);
        if whole < src.len() && src[whole] == '.' as u8 {
            lemma_run_local(src, whole + 1, len, ByteClass::Digit);
        }
    } else if alpha(b) {
        lemma_run_local(src, pos, len, ByteClass::Word);
    } else if b == '/' as u8 && followed_by(src, pos, '/' as u8) {
        lemma_run_local(src, pos + 2, len, ByteClass::CommentBody);
    }
}

/// The scan of the first `pos` bytes, where the scan of the whole source
/// comes to stand at `pos`, from a position before it.
pub proof fn lemma_prefix_from(src: Seq<u8>, from: int, line: nat, pos: int)
    requires
        0 <= from <= pos <= src.len(),
        reaches(src, from, pos),
    ensures
        tokens_from(src, from, line) == tokens_from(src.take(pos), from, line).drop_last()
            + tokens_from(src, pos, tokens_from(src.take(pos), from, line).last().line),
        diagnostics_from(src, from, line) == diagnostics_from(src.take(pos), from, line)
            + diagnostics_from(src, pos, tokens_from(src.take(pos), from, line).last().line),
    decreases src.len() - from,
{
    let cut = src.take(pos);
    if from == pos {
        assert(tokens_from(cut, from, line) =~= seq![TokenView::eof(line)]);
        assert(tokens_from(src, from, line) =~= tokens_from(cut, from, line).drop_last()
            + tokens_from(src, pos, line));
        assert(diagnostics_from(src, from, line) =~= diagnostics_from(cut, from, line)
            + diagnostics_from(src, pos, line));
    } else {
        let s = step(src, from, line);
        lemma_step_advances(src, from, line);
        lemma_step_advances(src, from, 1);
        lemma_reaches_late(src, step(src, from, 1).next, pos);
        lemma_step_local(src, from, line, pos);
        lemma_prefix_from(src, s.next, s.line, pos);
        lemma_spans_match_tokens(cut, s.next, s.line);
        let rest = tokens_from(cut, s.next, s.line);
        let tail = tokens_from(src, pos, rest.last().line);
        let said = diagnostics_from(cut, s.next, s.line);
        let more = diagnostics_from(src, pos, rest.last().line);
        match s.token {
            Some(token) => {
                assert((seq![token] + rest).drop_last() =~= seq![token] + rest.drop_last());
                assert(seq![token] + (rest.drop_last() + tail) =~= (seq![token]
                    + rest.drop_last()) + tail);
            },
            None => {},
        }
        match s.diagnostic {
            Some(diagnostic) => {
                assert(seq![diagnostic] + (said + more) =~= (seq![diagnostic] + said) + more);
            },
            None => {},
        }
    }
}

/// The scan comes to stand only at positions from its start on.
pub proof fn lemma_reaches_late(src: Seq<u8>, from: int, pos: int)
    requires
        reaches(src, from, pos),
    ensures
        from <= pos,
{
}

/// The scan never looks back: where it comes to stand at a position, what
/// it has yielded up to there is the scan of the source up to there, and
/// what follows is the scan from there on. So neither an unknown character
/// nor an unterminated string touches a token that was made before it.
pub proof fn law_prefix(src: Seq<u8>, pos: int)
    requires
        0 <= pos <= src.len(),
        reaches(src, 0, pos),
    ensures
        tokens_of(src) == tokens_of(src.take(pos)).drop_last() + tokens_from(
            src,
            pos,
            line_at(src, pos),
        ),
        diagnostics_of(src) == diagnostics_of(src.take(pos)) + diagnostics_from(
            src,
            pos,
            line_at(src, pos),
        ),
{
    lemma_prefix_from(src, 0, 1, pos);
    law_single_eof(src.take(pos));
    assert(src.take(pos).subrange(0, pos) =~= src.subrange(0, pos));
}

/// Every token is well formed, and lines count from 1.
pub proof fn law_tokens_well_formed(src: Seq<u8>, i: int)
    requires
        0 <= i < tokens_of(src).len(),
    ensures
        tokens_of(src)[i].well_formed(),
        tokens_of(src)[i].line >= 1,
        tokens_of(src)[i].kind == TokenKind::Eof <==> i == tokens_of(src).len() - 1,
{
    law_single_eof(src);
    if i < tokens_of(src).len() - 1 {
        law_token_origin(src, i);
        law_step_token_well_formed(src, spans_of(src)[i].0, line_at(src, spans_of(src)[i].0));
    }
}

/// A source of a single punctuation mark or operator character scans into
/// exactly one token of the matching kind, followed by the sentinel, both
/// on line 1, and raises no diagnostic.
pub proof fn law_single_character(b: u8)
    requires
        lone_kind(b) is Some,
    ensures
        tokens_of(seq![b]) == seq![
            TokenView::bare(lone_kind(b)->0, 1),
            TokenView::eof(1),
        ],
        diagnostics_of(seq![b]) == Seq::<DiagnosticView>::empty(),
{
    let src = seq![b];
    reveal_with_fuel(tokens_from, 2);
    reveal_with_fuel(diagnostics_from, 2);
    assert(step(src, 0, 1) == Step::emit(1, TokenView::bare(lone_kind(b)->0, 1)));
    assert(tokens_of(src) =~= seq![TokenView::bare(lone_kind(b)->0, 1), TokenView::eof(1)]);
    assert(diagnostics_of(src) =~= Seq::<DiagnosticView>::empty());
}

/// Maximal munch for operators: at `!`, `=`, `>` or `<` the two-character
/// operator is taken whenever `=` follows, and the one-character operator
/// only where it does not.
pub proof fn law_operator(src: Seq<u8>, pos: int, line: nat)
    requires
        0 <= pos < src.len(),
        operator(src[pos]) is Some,
    ensures
        ({
            let (one, two) = operator(src[pos])->0;
            step(src, pos, line) == if pos + 1 < src.len() && src[pos + 1] == '=' as u8 {
                Step::emit(pos + 2, TokenView::bare(two, line))
            } else {
                Step::emit(pos + 1, TokenView::bare(one, line))
            }
        }),
{
}

/// A line comment yields nothing: from `//` the scan goes on at the next
/// newline, or at the end of the source where there is none, with the line
/// counter unchanged.
pub proof fn law_comment(src: Seq<u8>, pos: int, line: nat, end: int)
    requires
        0 <= pos,
        pos + 2 <= end <= src.len(),
        src[pos] == '/' as u8,
        src[pos + 1] == '/' as u8,
        forall|i: int| pos <= i < end ==> !newline(#[trigger] src[i]),
        end < src.len() ==> newline(src[end]),
    ensures
        step(src, pos, line) == Step::skip(end, line),
        tokens_from(src, pos, line) == tokens_from(src, end, line),
        diagnostics_from(src, pos, line) == diagnostics_from(src, end, line),
{
    lemma_run_unique(src, pos + 2, end, ByteClass::CommentBody);
}

/// A word is taken whole: from a letter or underscore the token spans the
/// longest run of alphanumeric bytes and carries exactly that run. It is a
/// reserved word where the whole run spells one, else an `Identifier`.
pub proof fn law_word(src: Seq<u8>, pos: int, line: nat, end: int)
    requires
        0 <= pos < end <= src.len(),
        alpha(src[pos]),
        forall|i: int| pos <= i < end ==> alphanumeric(#[trigger] src[i]),
        end < src.len() ==> !alphanumeric(src[end]),
    ensures
        step(src, pos, line) == Step::emit(
            end,
            TokenView::with_text(
                word_kind(src.subrange(pos, end)),
                src.subrange(pos, end),
                line,
            ),
        ),
        word_kind(src.subrange(pos, end)).is_keyword() || word_kind(src.subrange(pos, end))
            == TokenKind::Identifier,
{
    lemma_run_unique(src, pos, end, ByteClass::Word);
}

/// The table of reserved words is exact: a text is reserved for a kind if
/// and only if the kind is a reserved word and the text is its spelling,
/// byte for byte.
pub proof fn law_reserved_exact(text: Seq<u8>, kind: TokenKind)
    ensures
        reserved(text) == Some(kind) <==> kind.is_keyword() && text == spelling(kind),
{
    lemma_spellings();
    if kind.is_keyword() && text == spelling(kind) {
        assert(text.len() == spelling(kind).len());
        assert(text[0] == spelling(kind)[0]);
        assert(text[1] == spelling(kind)[1]);
        if text.len() > 2 {
            assert(text[2] == spelling(kind)[2]);
        }
        if text.len() > 3 {
            assert(text[3] == spelling(kind)[3]);
        }
    }
}

/// A number is taken whole: its digits and, where a dot follows them, the
/// dot and the digits behind it. The dot is part of the number even where
/// no digit follows.
pub proof fn law_number(src: Seq<u8>, pos: int, line: nat, whole: int, end: int)
    requires
        0 <= pos < whole <= end <= src.len(),
        forall|i: int| pos <= i < whole ==> digit(#[trigger] src[i]),
        whole < src.len() ==> !digit(src[whole]),
        if whole < src.len() && src[whole] == '.' as u8 {
            &&& whole < end
            &&& forall|i: int| whole < i < end ==> digit(#[trigger] src[i])
            &&& end < src.len() ==> !digit(src[end])
        } else {
            end == whole
        },
    ensures
        step(src, pos, line) == Step::emit(
            end,
            TokenView::with_text(TokenKind::Number, src.subrange(pos, end), line),
        ),
{
    lemma_run_unique(src, pos, whole, ByteClass::Digit);
    if whole < src.len() && src[whole] == '.' as u8 {
        lemma_run_unique(src, whole + 1, end, ByteClass::Digit);
    }
}

/// A terminated string: from an opening quote to the next quote the step
/// emits one `String` token. It carries what stands between the quotes,
/// unchanged, and its line is that of the closing quote.
pub proof fn law_string(src: Seq<u8>, pos: int, line: nat, close: int)
    requires
        0 <= pos < close < src.len(),
        quote(src[pos]),
        quote(src[close]),
        forall|i: int| pos < i < close ==> !quote(#[trigger] src[i]),
    ensures
        step(src, pos, line) == Step::emit(
            close + 1,
            TokenView::with_text(
                TokenKind::String,
                src.subrange(pos + 1, close),
                line + newlines(src.subrange(pos + 1, close)),
            ),
        ),
{
    lemma_run_unique(src, pos + 1, close, ByteClass::StringBody);
}

/// An unterminated string ends the scan: where no quote closes the string
/// that opens at `pos`, the step reports it with the line on which it
/// started, and nothing but the sentinel follows, on the line reached at
/// the end of the source. What was scanned before is not touched.
pub proof fn law_unterminated_string(src: Seq<u8>, pos: int, line: nat)
    requires
        0 <= pos < src.len(),
        quote(src[pos]),
        forall|i: int| pos < i < src.len() ==> !quote(#[trigger] src[i]),
    ensures
        tokens_from(src, pos, line) == seq![
            TokenView::eof(line + newlines(src.subrange(pos + 1, src.len() as int))),
        ],
        diagnostics_from(src, pos, line) == seq![(DiagnosticView::UnterminatedString { line })],
{
    lemma_run_unique(src, pos + 1, src.len() as int, ByteClass::StringBody);
    reveal_with_fuel(tokens_from, 2);
    reveal_with_fuel(diagnostics_from, 2);
    assert(diagnostics_from(src, pos, line) =~= seq![
        (DiagnosticView::UnterminatedString { line }),
    ]);
}

/// An unknown character is reported and skipped: it raises one diagnostic
/// with the current line and the byte, and the tokens are those of the
/// scan that goes on behind it.
pub proof fn law_unknown_character(src: Seq<u8>, pos: int, line: nat)
    requires
        0 <= pos < src.len(),
        unknown(src[pos]),
    ensures
        tokens_from(src, pos, line) == tokens_from(src, pos + 1, line),
        diagnostics_from(src, pos, line) == seq![
            (DiagnosticView::UnknownCharacter { line, byte: src[pos] }),
        ] + diagnostics_from(src, pos + 1, line),
{
}

/// Blanks are skipped, and a newline moves the scan to the next line.
pub proof fn law_whitespace(src: Seq<u8>, pos: int, line: nat)
    requires
        0 <= pos < src.len(),
        blank(src[pos]) || newline(src[pos]),
    ensures
        step(src, pos, line) == Step::skip(
            pos + 1,
            if newline(src[pos]) {
                line + 1
            } else {
                line
            },
        ),
{
}

} // verus!
