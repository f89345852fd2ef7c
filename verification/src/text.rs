//! Building text: decimal numbers, and slices of a source on character
//! boundaries.

use vstd::prelude::*;
use vstd::string::StringSliceAdditionalSpecFns;
use vstd::utf8::*;

verus! {

/// Taken on trust from the documentation of the standard library, not
/// proved here: `String::push` appends the character `ch` to the end of the
/// string and leaves what the string held before as it was.
pub assume_specification[ std::string::String::push ](s: &mut std::string::String, ch: char)
    ensures
        final(s)@ == old(s)@.push(ch),
;

/// The character that stands for the decimal digit `d`.
pub open spec fn digit_char(d: nat) -> char
    recommends
        d < 10,
{
    ('0' as u8 + d) as u8 as char
}

/// `n` written in decimal, without sign or leading zeros.
pub open spec fn decimal(n: nat) -> Seq<char>
    decreases n,
{
    if n < 10 {
        seq![digit_char(n)]
    } else {
        decimal(n / 10).push(digit_char(n % 10))
    }
}

/// Appends `n` in decimal to `out`.
pub(crate) fn push_decimal(out: &mut String, n: usize)
    ensures
        final(out)@ == old(out)@ + decimal(n as nat),
    decreases n,
{
    if n >= 10 {
        push_decimal(out, n / 10);
    }
    let d: u8 = (n % 10) as u8;
    out.push(('0' as u8 + d) as char);
    assert(out@ =~= old(out)@ + decimal(n as nat));
}

/// In well-formed UTF-8 a character ends with every ASCII byte, so the
/// position after one is a character boundary.
pub proof fn lemma_boundary_after_ascii(bytes: Seq<u8>, i: int)
    requires
        valid_utf8(bytes),
        0 <= i < bytes.len(),
        bytes[i] <= 0x7f,
    ensures
        is_char_boundary(bytes, i + 1),
    decreases bytes.len(),
{
    let k = length_of_first_scalar(bytes);
    if i < k {
        reveal_with_fuel(is_char_boundary, 2);
    } else {
        lemma_boundary_after_ascii(pop_first_scalar(bytes), i - k);
    }
}

/// In well-formed UTF-8 every ASCII byte starts a character.
pub proof fn lemma_boundary_at_ascii(bytes: Seq<u8>, i: int)
    requires
        valid_utf8(bytes),
        0 <= i < bytes.len(),
        bytes[i] <= 0x7f,
    ensures
        is_char_boundary(bytes, i),
{
    is_char_boundary_iff_not_is_continuation_byte(bytes, i);
}

/// The text of `source` between the byte offsets `start` and `end`, which
/// both lie on character boundaries.
pub(crate) fn slice_text(source: &str, start: usize, end: usize) -> (text: String)
    requires
        start <= end <= source.spec_bytes().len(),
        is_char_boundary(source.spec_bytes(), start as int),
        is_char_boundary(source.spec_bytes(), end as int),
    ensures
        encode_utf8(text@) == source.spec_bytes().subrange(start as int, end as int),
{
    let (head, _) = source.split_at(end);
    proof {
        let bytes = source.spec_bytes();
        let front = head.spec_bytes();
        encode_utf8_valid_utf8(source@);
        encode_utf8_valid_utf8(head@);
        if start == end {
            is_char_boundary_start_end_of_seq(front);
        } else {
            is_char_boundary_iff_not_is_continuation_byte(bytes, start as int);
            assert(front[start as int] == bytes[start as int]);
            is_char_boundary_iff_not_is_continuation_byte(front, start as int);
        }
    }
    let (_, piece) = head.split_at(start);
    assert(piece.spec_bytes() =~= source.spec_bytes().subrange(start as int, end as int));
    piece.to_owned()
}

} // verus!
