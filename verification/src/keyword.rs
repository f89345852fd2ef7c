//! The reserved words.

use crate::token::TokenKind;
use vstd::prelude::*;
use vstd::string::StringSliceAdditionalSpecFns;
use vstd::utf8::is_ascii_chars_encode_utf8;

verus! {

/// How each reserved word is spelled, as UTF-8 bytes. All of them are
/// written in lower case. The other kinds have no spelling: for them the
/// result is empty.
pub open spec fn spelling(kind: TokenKind) -> Seq<u8> {
    match kind {
        TokenKind::And => "and".spec_bytes(),
        TokenKind::Class => "class".spec_bytes(),
        TokenKind::Else => "else".spec_bytes(),
        TokenKind::False => "false".spec_bytes(),
        TokenKind::Fun => "fun".spec_bytes(),
        TokenKind::For => "for".spec_bytes(),
        TokenKind::If => "if".spec_bytes(),
        TokenKind::Nil => "nil".spec_bytes(),
        TokenKind::Or => "or".spec_bytes(),
        TokenKind::Print => "print".spec_bytes(),
        TokenKind::Return => "return".spec_bytes(),
        TokenKind::Super => "super".spec_bytes(),
        TokenKind::This => "this".spec_bytes(),
        TokenKind::True => "true".spec_bytes(),
        TokenKind::Var => "var".spec_bytes(),
        TokenKind::While => "while".spec_bytes(),
        _ => Seq::empty(),
    }
}

/// The table of reserved words: the kind that `text` is reserved for, if it
/// is reserved. The whole text counts, byte for byte.
pub open spec fn reserved(text: Seq<u8>) -> Option<TokenKind> {
    if text == spelling(TokenKind::And) {
        Some(TokenKind::And)
    } else if text == spelling(TokenKind::Class) {
        Some(TokenKind::Class)
    } else if text == spelling(TokenKind::Else) {
        Some(TokenKind::Else)
    } else if text == spelling(TokenKind::False) {
        Some(TokenKind::False)
    } else if text == spelling(TokenKind::Fun) {
        Some(TokenKind::Fun)
    } else if text == spelling(TokenKind::For) {
        Some(TokenKind::For)
    } else if text == spelling(TokenKind::If) {
        Some(TokenKind::If)
    } else if text == spelling(TokenKind::Nil) {
        Some(TokenKind::Nil)
    } else if text == spelling(TokenKind::Or) {
        Some(TokenKind::Or)
    } else if text == spelling(TokenKind::Print) {
        Some(TokenKind::Print)
    } else if text == spelling(TokenKind::Return) {
        Some(TokenKind::Return)
    } else if text == spelling(TokenKind::Super) {
        Some(TokenKind::Super)
    } else if text == spelling(TokenKind::This) {
        Some(TokenKind::This)
    } else if text == spelling(TokenKind::True) {
        Some(TokenKind::True)
    } else if text == spelling(TokenKind::Var) {
        Some(TokenKind::Var)
    } else if text == spelling(TokenKind::While) {
        Some(TokenKind::While)
    } else {
        None
    }
}

/// The kind of a word: that of the reserved word it spells, or `Identifier`.
pub open spec fn word_kind(text: Seq<u8>) -> TokenKind {
    match reserved(text) {
        Some(kind) => kind,
        None => TokenKind::Identifier,
    }
}

/// The bytes of a text of ASCII characters: one byte for each character.
pub open spec fn ascii(text: Seq<char>) -> Seq<u8> {
    Seq::new(text.len(), |i: int| text[i] as u8)
}

/// The spelling of every reserved word, character by character.
pub proof fn lemma_spellings()
    ensures
        spelling(TokenKind::And) == ascii(seq!['a', 'n', 'd']),
        spelling(TokenKind::Class) == ascii(seq!['c', 'l', 'a', 's', 's']),
        spelling(TokenKind::Else) == ascii(seq!['e', 'l', 's', 'e']),
        spelling(TokenKind::False) == ascii(seq!['f', 'a', 'l', 's', 'e']),
        spelling(TokenKind::Fun) == ascii(seq!['f', 'u', 'n']),
        spelling(TokenKind::For) == ascii(seq!['f', 'o', 'r']),
        spelling(TokenKind::If) == ascii(seq!['i', 'f']),
        spelling(TokenKind::Nil) == ascii(seq!['n', 'i', 'l']),
        spelling(TokenKind::Or) == ascii(seq!['o', 'r']),
        spelling(TokenKind::Print) == ascii(seq!['p', 'r', 'i', 'n', 't']),
        spelling(TokenKind::Return) == ascii(seq!['r', 'e', 't', 'u', 'r', 'n']),
        spelling(TokenKind::Super) == ascii(seq!['s', 'u', 'p', 'e', 'r']),
        spelling(TokenKind::This) == ascii(seq!['t', 'h', 'i', 's']),
        spelling(TokenKind::True) == ascii(seq!['t', 'r', 'u', 'e']),
        spelling(TokenKind::Var) == ascii(seq!['v', 'a', 'r']),
        spelling(TokenKind::While) == ascii(seq!['w', 'h', 'i', 'l', 'e']),
{
    assert(spelling(TokenKind::And) =~= ascii(seq!['a', 'n', 'd'])) by {
        reveal_strlit("and");
        is_ascii_chars_encode_utf8("and"@);
    }
    assert(spelling(TokenKind::Class) =~= ascii(seq!['c', 'l', 'a', 's', 's'])) by {
        reveal_strlit("class");
        is_ascii_chars_encode_utf8("class"@);
    }
    assert(spelling(TokenKind::Else) =~= ascii(seq!['e', 'l', 's', 'e'])) by {
        reveal_strlit("else");
        is_ascii_chars_encode_utf8("else"@);
    }
    assert(spelling(TokenKind::False) =~= ascii(seq!['f', 'a', 'l', 's', 'e'])) by {
        reveal_strlit("false");
        is_ascii_chars_encode_utf8("false"@);
    }
    assert(spelling(TokenKind::Fun) =~= ascii(seq!['f', 'u', 'n'])) by {
        reveal_strlit("fun");
        is_ascii_chars_encode_utf8("fun"@);
    }
    assert(spelling(TokenKind::For) =~= ascii(seq!['f', 'o', 'r'])) by {
        reveal_strlit("for");
        is_ascii_chars_encode_utf8("for"@);
    }
    assert(spelling(TokenKind::If) =~= ascii(seq!['i', 'f'])) by {
        reveal_strlit("if");
        is_ascii_chars_encode_utf8("if"@);
    }
    assert(spelling(TokenKind::Nil) =~= ascii(seq!['n', 'i', 'l'])) by {
        reveal_strlit("nil");
        is_ascii_chars_encode_utf8("nil"@);
    }
    assert(spelling(TokenKind::Or) =~= ascii(seq!['o', 'r'])) by {
        reveal_strlit("or");
        is_ascii_chars_encode_utf8("or"@);
    }
    assert(spelling(TokenKind::Print) =~= ascii(seq!['p', 'r', 'i', 'n', 't'])) by {
        reveal_strlit("print");
        is_ascii_chars_encode_utf8("print"@);
    }
    assert(spelling(TokenKind::Return) =~= ascii(seq!['r', 'e', 't', 'u', 'r', 'n'])) by {
        reveal_strlit("return");
        is_ascii_chars_encode_utf8("return"@);
    }
    assert(spelling(TokenKind::Super) =~= ascii(seq!['s', 'u', 'p', 'e', 'r'])) by {
        reveal_strlit("super");
        is_ascii_chars_encode_utf8("super"@);
    }
    assert(spelling(TokenKind::This) =~= ascii(seq!['t', 'h', 'i', 's'])) by {
        reveal_strlit("this");
        is_ascii_chars_encode_utf8("this"@);
    }
    assert(spelling(TokenKind::True) =~= ascii(seq!['t', 'r', 'u', 'e'])) by {
        reveal_strlit("true");
        is_ascii_chars_encode_utf8("true"@);
    }
    assert(spelling(TokenKind::Var) =~= ascii(seq!['v', 'a', 'r'])) by {
        reveal_strlit("var");
        is_ascii_chars_encode_utf8("var"@);
    }
    assert(spelling(TokenKind::While) =~= ascii(seq!['w', 'h', 'i', 'l', 'e'])) by {
        reveal_strlit("while");
        is_ascii_chars_encode_utf8("while"@);
    }
}

/// Whether two byte strings are the same.
fn same_bytes(a: &[u8], b: &[u8]) -> (same: bool)
    ensures
        same == (a@ == b@),
{
    if a.len() != b.len() {
        return false;
    }
    let mut i: usize = 0;
    while i < a.len()
        invariant
            a@.len() == b@.len(),
            i <= a@.len(),
            forall|j: int| 0 <= j < i ==> a@[j] == b@[j],
        decreases a@.len() - i,
    {
        if a[i] != b[i] {
            return false;
        }
        i += 1;
    }
    assert(a@ =~= b@);
    true
}

/// Looks `word` up in the table of reserved words.
pub fn keyword_kind(word: &[u8]) -> (kind: Option<TokenKind>)
    ensures
        kind == reserved(word@),
{
    if same_bytes(word, "and".as_bytes()) {
        Some(TokenKind::And)
    } else if same_bytes(word, "class".as_bytes()) {
        Some(TokenKind::Class)
    } else if same_bytes(word, "else".as_bytes()) {
        Some(TokenKind::Else)
    } else if same_bytes(word, "false".as_bytes()) {
        Some(TokenKind::False)
    } else if same_bytes(word, "fun".as_bytes()) {
        Some(TokenKind::Fun)
    } else if same_bytes(word, "for".as_bytes()) {
        Some(TokenKind::For)
    } else if same_bytes(word, "if".as_bytes()) {
        Some(TokenKind::If)
    } else if same_bytes(word, "nil".as_bytes()) {
        Some(TokenKind::Nil)
    } else if same_bytes(word, "or".as_bytes()) {
        Some(TokenKind::Or)
    } else if same_bytes(word, "print".as_bytes()) {
        Some(TokenKind::Print)
    } else if same_bytes(word, "return".as_bytes()) {
        Some(TokenKind::Return)
    } else if same_bytes(word, "super".as_bytes()) {
        Some(TokenKind::Super)
    } else if same_bytes(word, "this".as_bytes()) {
        Some(TokenKind::This)
    } else if same_bytes(word, "true".as_bytes()) {
        Some(TokenKind::True)
    } else if same_bytes(word, "var".as_bytes()) {
        Some(TokenKind::Var)
    } else if same_bytes(word, "while".as_bytes()) {
        Some(TokenKind::While)
    } else {
        None
    }
}

} // verus!
