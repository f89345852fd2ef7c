//! Byte classes of the lexical grammar, and maximal runs of bytes of one class.

use vstd::prelude::*;

verus! {

/// Letters `a`-`z`, `A`-`Z` and the underscore: the bytes that may start a word.
pub open spec fn alpha(b: u8) -> bool {
    ('a' as u8 <= b <= 'z' as u8) || ('A' as u8 <= b <= 'Z' as u8) || b == '_' as u8
}

/// Decimal digits `0`-`9`.
pub open spec fn digit(b: u8) -> bool {
    '0' as u8 <= b <= '9' as u8
}

/// The bytes that may continue a word: letters, the underscore and digits.
pub open spec fn alphanumeric(b: u8) -> bool {
    alpha(b) || digit(b)
}

/// Space, carriage return and tab: skipped without any effect.
pub open spec fn blank(b: u8) -> bool {
    b == ' ' as u8 || b == '\r' as u8 || b == '\t' as u8
}

/// The line terminator.
pub open spec fn newline(b: u8) -> bool {
    b == '\n' as u8
}

/// The string delimiter.
pub open spec fn quote(b: u8) -> bool {
    b == '"' as u8
}

/// Whether the byte is a letter or the underscore.
pub fn is_alpha(a: &u8) -> (r: bool)
    ensures
        r == alpha(*a),
{
    let b: u8 = *a;
    ('a' as u8 <= b && b <= 'z' as u8) || ('A' as u8 <= b && b <= 'Z' as u8) || b == '_' as u8
}

/// Whether the byte is a decimal digit.
pub fn is_digit(a: &u8) -> (r: bool)
    ensures
        r == digit(*a),
{
    let b: u8 = *a;
    '0' as u8 <= b && b <= '9' as u8
}

/// Whether the byte is a letter, the underscore or a decimal digit.
pub fn is_alphanumeric(a: &u8) -> (r: bool)
    ensures
        r == alphanumeric(*a),
{
    is_alpha(a) || is_digit(a)
}

/// The kinds of run that the scanner consumes greedily.
#[derive(Clone, Copy, Debug, PartialEq, Eq, Structural)]
pub enum ByteClass {
    /// Decimal digits: the integer and the fractional part of a number.
    Digit,
    /// Alphanumeric bytes: the body of an identifier or keyword.
    Word,
    /// Everything but a newline: the body of a line comment.
    CommentBody,
    /// Everything but a double quote: the body of a string literal.
    StringBody,
}

impl ByteClass {
    /// Whether byte `b` belongs to the class.
    pub open spec fn admits(self, b: u8) -> bool {
        match self {
            ByteClass::Digit => digit(b),
            ByteClass::Word => alphanumeric(b),
            ByteClass::CommentBody => !newline(b),
            ByteClass::StringBody => !quote(b),
        }
    }

    /// Whether byte `b` belongs to the class.
    pub fn contains(&self, b: u8) -> (r: bool)
        ensures
            r == self.admits(b),
    {
        match self {
            ByteClass::Digit => is_digit(&b),
            ByteClass::Word => is_alphanumeric(&b),
            ByteClass::CommentBody => b != '\n' as u8,
            ByteClass::StringBody => b != '"' as u8,
        }
    }
}

/// Length of the longest run of `class` bytes that starts at `from`;
/// zero when `from` lies outside the source.
pub open spec fn run_len(src: Seq<u8>, from: int, class: ByteClass) -> nat
    decreases src.len() - from,
{
    if 0 <= from < src.len() && class.admits(src[from]) {
        1 + run_len(src, from + 1, class)
    } else {
        0
    }
}

/// Number of newline bytes in `s`.
pub open spec fn newlines(s: Seq<u8>) -> nat
    decreases s.len(),
{
    if s.len() == 0 {
        0
    } else {
        newlines(s.drop_last()) + if newline(s.last()) {
            1nat
        } else {
            0nat
        }
    }
}

/// A run never leaves the source.
pub proof fn lemma_run_in_bounds(src: Seq<u8>, from: int, class: ByteClass)
    requires
        0 <= from <= src.len(),
    ensures
        from + run_len(src, from, class) <= src.len(),
    decreases src.len() - from,
{
    if from < src.len() && class.admits(src[from]) {
        lemma_run_in_bounds(src, from + 1, class);
    }
}

/// A run is maximal: every byte in it belongs to the class, and the byte
/// after it, if there is one, does not.
pub proof fn lemma_run_maximal(src: Seq<u8>, from: int, class: ByteClass)
    requires
        0 <= from <= src.len(),
    ensures
        forall|i: int|
            from <= i < from + run_len(src, from, class) ==> class.admits(#[trigger] src[i]),
        from + run_len(src, from, class) < src.len() ==> !class.admits(
            src[from + run_len(src, from, class)],
        ),
    decreases src.len() - from,
{
    if from < src.len() && class.admits(src[from]) {
        lemma_run_maximal(src, from + 1, class);
    }
}

/// The run that starts at `from` is the only stretch of `class` bytes from
/// there that cannot be extended.
pub proof fn lemma_run_unique(src: Seq<u8>, from: int, end: int, class: ByteClass)
    requires
        0 <= from <= end <= src.len(),
        forall|i: int| from <= i < end ==> class.admits(#[trigger] src[i]),
        end < src.len() ==> !class.admits(src[end]),
    ensures
        end == from + run_len(src, from, class),
    decreases end - from,
{
    if from < end {
        lemma_run_unique(src, from + 1, end, class);
    }
}

/// Newlines add up over a concatenation.
pub proof fn lemma_newlines_concat(a: Seq<u8>, b: Seq<u8>)
    ensures
        newlines(a + b) == newlines(a) + newlines(b),
    decreases b.len(),
{
    if b.len() == 0 {
        assert(a + b =~= a);
    } else {
        assert((a + b).drop_last() =~= a + b.drop_last());
        lemma_newlines_concat(a, b.drop_last());
    }
}

/// End of the longest run of `class` bytes that starts at `from`.
pub fn run_end(src: &[u8], from: usize, class: ByteClass) -> (end: usize)
    requires
        from <= src@.len(),
    ensures
        end == from + run_len(src@, from as int, class),
        from <= end <= src@.len(),
{
    let mut end: usize = from;
    while end < src.len() && class.contains(src[end])
        invariant
            from <= end <= src@.len(),
            end + run_len(src@, end as int, class) == from + run_len(src@, from as int, class),
        decreases src@.len() - end,
    {
        end += 1;
    }
    end
}

} // verus!
