//! Tokens: their kinds, their mathematical view and their textual rendering.

use crate::text::{decimal, push_decimal};
use vstd::prelude::*;
use vstd::string::StringExecFns;
use vstd::string::StringSliceAdditionalSpecFns;
use vstd::utf8::encode_utf8;

verus! {

/// The closed set of token kinds.
#[derive(Clone, Copy, Debug, PartialEq, Eq, Structural)]
pub enum TokenKind {
    // Single-character tokens.
    LeftParen,
    RightParen,
    LeftBrace,
    RightBrace,
    Comma,
    Dot,
    Minus,
    Plus,
    Semicolon,
    Slash,
    Star,
    // One- or two-character tokens.
    Bang,
    BangEqual,
    Equal,
    EqualEqual,
    Greater,
    GreaterEqual,
    Less,
    LessEqual,
    // Literals.
    Identifier,
    String,
    Number,
    // Reserved words.
    Nil,
    True,
    False,
    And,
    Or,
    If,
    Else,
    Class,
    Super,
    This,
    For,
    While,
    Fun,
    Return,
    Var,
    Print,
    // End of input.
    Eof,
}

impl TokenKind {
    /// The reserved words.
    pub open spec fn is_keyword(self) -> bool {
        match self {
            TokenKind::Nil
            | TokenKind::True
            | TokenKind::False
            | TokenKind::And
            | TokenKind::Or
            | TokenKind::If
            | TokenKind::Else
            | TokenKind::Class
            | TokenKind::Super
            | TokenKind::This
            | TokenKind::For
            | TokenKind::While
            | TokenKind::Fun
            | TokenKind::Return
            | TokenKind::Var
            | TokenKind::Print => true,
            _ => false,
        }
    }

    /// The kinds whose tokens carry the matched text: identifiers, strings,
    /// numbers and reserved words. Punctuation, operators and the end of
    /// input carry none.
    pub open spec fn carries_text(self) -> bool {
        self.is_keyword() || self == TokenKind::Identifier || self == TokenKind::String || self
            == TokenKind::Number
    }

    /// The name of the kind, as it is written in a rendered token.
    pub open spec fn spec_name(self) -> Seq<char> {
        match self {
            TokenKind::LeftParen => "LeftParen"@,
            TokenKind::RightParen => "RightParen"@,
            TokenKind::LeftBrace => "LeftBrace"@,
            TokenKind::RightBrace => "RightBrace"@,
            TokenKind::Comma => "Comma"@,
            TokenKind::Dot => "Dot"@,
            TokenKind::Minus => "Minus"@,
            TokenKind::Plus => "Plus"@,
            TokenKind::Semicolon => "Semicolon"@,
            TokenKind::Slash => "Slash"@,
            TokenKind::Star => "Star"@,
            TokenKind::Bang => "Bang"@,
            TokenKind::BangEqual => "BangEqual"@,
            TokenKind::Equal => "Equal"@,
            TokenKind::EqualEqual => "EqualEqual"@,
            TokenKind::Greater => "Greater"@,
            TokenKind::GreaterEqual => "GreaterEqual"@,
            TokenKind::Less => "Less"@,
            TokenKind::LessEqual => "LessEqual"@,
            TokenKind::Identifier => "Identifier"@,
            TokenKind::String => "String"@,
            TokenKind::Number => "Number"@,
            TokenKind::Nil => "Nil"@,
            TokenKind::True => "True"@,
            TokenKind::False => "False"@,
            TokenKind::And => "And"@,
            TokenKind::Or => "Or"@,
            TokenKind::If => "If"@,
            TokenKind::Else => "Else"@,
            TokenKind::Class => "Class"@,
            TokenKind::Super => "Super"@,
            TokenKind::This => "This"@,
            TokenKind::For => "For"@,
            TokenKind::While => "While"@,
            TokenKind::Fun => "Fun"@,
            TokenKind::Return => "Return"@,
            TokenKind::Var => "Var"@,
            TokenKind::Print => "Print"@,
            TokenKind::Eof => "Eof"@,
        }
    }

    /// The name of the kind.
    pub fn name(&self) -> (r: &'static str)
        ensures
            r@ == self.spec_name(),
    {
        match self {
            TokenKind::LeftParen => "LeftParen",
            TokenKind::RightParen => "RightParen",
            TokenKind::LeftBrace => "LeftBrace",
            TokenKind::RightBrace => "RightBrace",
            TokenKind::Comma => "Comma",
            TokenKind::Dot => "Dot",
            TokenKind::Minus => "Minus",
            TokenKind::Plus => "Plus",
            TokenKind::Semicolon => "Semicolon",
            TokenKind::Slash => "Slash",
            TokenKind::Star => "Star",
            TokenKind::Bang => "Bang",
            TokenKind::BangEqual => "BangEqual",
            TokenKind::Equal => "Equal",
            TokenKind::EqualEqual => "EqualEqual",
            TokenKind::Greater => "Greater",
            TokenKind::GreaterEqual => "GreaterEqual",
            TokenKind::Less => "Less",
            TokenKind::LessEqual => "LessEqual",
            TokenKind::Identifier => "Identifier",
            TokenKind::String => "String",
            TokenKind::Number => "Number",
            TokenKind::Nil => "Nil",
            TokenKind::True => "True",
            TokenKind::False => "False",
            TokenKind::And => "And",
            TokenKind::Or => "Or",
            TokenKind::If => "If",
            TokenKind::Else => "Else",
            TokenKind::Class => "Class",
            TokenKind::Super => "Super",
            TokenKind::This => "This",
            TokenKind::For => "For",
            TokenKind::While => "While",
            TokenKind::Fun => "Fun",
            TokenKind::Return => "Return",
            TokenKind::Var => "Var",
            TokenKind::Print => "Print",
            TokenKind::Eof => "Eof",
        }
    }
}

/// The default kind is the end-of-input sentinel.
impl Default for TokenKind {
    fn default() -> (kind: TokenKind)
        ensures
            kind == TokenKind::Eof,
    {
        TokenKind::Eof
    }
}

/// What a token is, as plain mathematics: its kind, the UTF-8 bytes of the
/// text it carries, and the line on which its scan completed.
pub struct TokenView {
    pub kind: TokenKind,
    pub text: Option<Seq<u8>>,
    pub line: nat,
}

impl TokenView {
    /// A token without text.
    pub open spec fn bare(kind: TokenKind, line: nat) -> TokenView {
        TokenView { kind, text: None, line }
    }

    /// A token that carries `text`.
    pub open spec fn with_text(kind: TokenKind, text: Seq<u8>, line: nat) -> TokenView {
        TokenView { kind, text: Some(text), line }
    }

    /// The end-of-input sentinel.
    pub open spec fn eof(line: nat) -> TokenView {
        TokenView::bare(TokenKind::Eof, line)
    }

    /// Text is present exactly for the kinds that carry it.
    pub open spec fn well_formed(self) -> bool {
        self.text is Some <==> self.kind.carries_text()
    }

    /// The rendering of a token: its text, its kind and its line, separated
    /// by a comma and a space. The text is written as the bracketed list of
    /// its bytes in decimal, or as `None` where the token carries none.
    pub open spec fn rendered(self) -> Seq<char> {
        let text = match self.text {
            Some(bytes) => byte_list(bytes),
            None => "None"@,
        };
        text + ", "@ + self.kind.spec_name() + ", "@ + decimal(self.line)
    }
}

/// The decimal values of `bytes`, separated by a comma and a space.
pub open spec fn byte_items(bytes: Seq<u8>) -> Seq<char>
    decreases bytes.len(),
{
    if bytes.len() == 0 {
        Seq::empty()
    } else if bytes.len() == 1 {
        decimal(bytes[0] as nat)
    } else {
        byte_items(bytes.drop_last()) + ", "@ + decimal(bytes.last() as nat)
    }
}

/// `bytes` as a bracketed list of decimal values, such as `[102, 111]`.
pub open spec fn byte_list(bytes: Seq<u8>) -> Seq<char> {
    "["@ + byte_items(bytes) + "]"@
}

/// The views of a sequence of tokens.
pub open spec fn token_views(tokens: Seq<Token>) -> Seq<TokenView> {
    tokens.map_values(|t: Token| t@)
}

/// A classified, positioned unit of source text. A token is made once and
/// never changes.
#[derive(Debug)]
pub struct Token {
    kind: TokenKind,
    literal: Option<String>,
    line: usize,
}

impl View for Token {
    type V = TokenView;

    closed spec fn view(&self) -> TokenView {
        TokenView {
            kind: self.kind,
            text: match self.literal {
                Some(s) => Some(encode_utf8(s@)),
                None => None,
            },
            line: self.line as nat,
        }
    }
}

impl Token {
    pub(crate) fn bare(kind: TokenKind, line: usize) -> (token: Token)
        ensures
            token@ == TokenView::bare(kind, line as nat),
    {
        Token { kind, literal: None, line }
    }

    pub(crate) fn with_text(kind: TokenKind, text: String, line: usize) -> (token: Token)
        ensures
            token@ == TokenView::with_text(kind, encode_utf8(text@), line as nat),
    {
        Token { kind, literal: Some(text), line }
    }

    /// The kind of the token.
    pub fn kind(&self) -> (kind: TokenKind)
        ensures
            kind == self@.kind,
    {
        self.kind
    }

    /// The text the token carries, if any.
    pub fn literal(&self) -> (text: Option<&str>)
        ensures
            self@.text == match text {
                Some(s) => Some(s.spec_bytes()),
                None => None,
            },
    {
        match &self.literal {
            Some(s) => Some(s.as_str()),
            None => None,
        }
    }

    /// The 1-based line on which the scan of the token completed.
    pub fn line(&self) -> (line: usize)
        ensures
            line == self@.line,
    {
        self.line
    }

    /// The token as one line of text: its text as a list of bytes or
    /// `None`, then its kind, then its line, such as `[120], Identifier, 3`.
    pub fn to_string(&self) -> (s: String)
        ensures
            s@ == self@.rendered(),
    {
        let mut out = String::new();
        match &self.literal {
            Some(text) => {
                let bytes = text.as_str().as_bytes();
                out.append("[");
                let mut i: usize = 0;
                while i < bytes.len()
                    invariant
                        i <= bytes@.len(),
                        out@ == "["@ + byte_items(bytes@.take(i as int)),
                    decreases bytes@.len() - i,
                {
                    proof {
                        assert(bytes@.take(i + 1).drop_last() =~= bytes@.take(i as int));
                    }
                    if i > 0 {
                        out.append(", ");
                    }
                    push_decimal(&mut out, bytes[i] as usize);
                    i += 1;
                    assert(out@ =~= "["@ + byte_items(bytes@.take(i as int)));
                }
                proof {
                    assert(bytes@.take(i as int) =~= bytes@);
                }
                out.append("]");
            },
            None => {
                out.append("None");
                assert(out@ =~= "None"@);
            },
        }
        out.append(", ");
        out.append(self.kind.name());
        out.append(", ");
        push_decimal(&mut out, self.line);
        out
    }
}

} // verus!
