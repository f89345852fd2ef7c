//! Lexical diagnostics: what the scanner reports beside the tokens.

use crate::text::{decimal, push_decimal};
use vstd::prelude::*;
use vstd::string::StringExecFns;

verus! {

/// A lexical fault, with the 1-based line that it refers to.
#[derive(Clone, Copy, Debug, PartialEq, Eq, Structural)]
pub enum Diagnostic {
    /// A byte that starts no token, met on `line`. The scan goes on behind
    /// it.
    UnknownCharacter { line: usize, byte: u8 },
    /// A string literal that started on `line` and whose closing quote is
    /// missing. The scan ends with it.
    UnterminatedString { line: usize },
}

/// A diagnostic as plain mathematics.
pub enum DiagnosticView {
    UnknownCharacter { line: nat, byte: u8 },
    UnterminatedString { line: nat },
}

impl DiagnosticView {
    /// The line that the diagnostic refers to.
    pub open spec fn line(self) -> nat {
        match self {
            DiagnosticView::UnknownCharacter { line, .. } => line,
            DiagnosticView::UnterminatedString { line } => line,
        }
    }

    /// The character shown for an offending byte: the byte itself where it
    /// is ASCII, the replacement character U+FFFD where it is not.
    pub open spec fn shown(byte: u8) -> char {
        if byte <= 0x7f {
            byte as char
        } else {
            '\u{fffd}'
        }
    }

    /// The human-readable message.
    pub open spec fn message(self) -> Seq<char> {
        match self {
            DiagnosticView::UnknownCharacter { line, byte } => "Error: unknown token "@.push(
                DiagnosticView::shown(byte),
            ) + " at line "@ + decimal(line),
            DiagnosticView::UnterminatedString { line } => "Error: unterminated string at line "@
                + decimal(line),
        }
    }
}

impl View for Diagnostic {
    type V = DiagnosticView;

    open spec fn view(&self) -> DiagnosticView {
        match *self {
            Diagnostic::UnknownCharacter { line, byte } => DiagnosticView::UnknownCharacter {
                line: line as nat,
                byte,
            },
            Diagnostic::UnterminatedString { line } => DiagnosticView::UnterminatedString {
                line: line as nat,
            },
        }
    }
}

/// The views of a sequence of diagnostics.
pub open spec fn diagnostic_views(diagnostics: Seq<Diagnostic>) -> Seq<DiagnosticView> {
    diagnostics.map_values(|d: Diagnostic| d@)
}

impl Diagnostic {
    /// The line that the diagnostic refers to.
    pub fn line(&self) -> (line: usize)
        ensures
            line == self@.line(),
    {
        match self {
            Diagnostic::UnknownCharacter { line, .. } => *line,
            Diagnostic::UnterminatedString { line } => *line,
        }
    }

    /// The human-readable message.
    pub fn message(&self) -> (text: String)
        ensures
            text@ == self@.message(),
    {
        let mut out = String::new();
        match self {
            Diagnostic::UnknownCharacter { line, byte } => {
                out.append("Error: unknown token ");
                if *byte <= 0x7f {
                    out.push(*byte as char);
                } else {
                    out.push('\u{fffd}');
                }
                out.append(" at line ");
                push_decimal(&mut out, *line);
                assert(out@ =~= self@.message());
            },
            Diagnostic::UnterminatedString { line } => {
                out.append("Error: unterminated string at line ");
                push_decimal(&mut out, *line);
                assert(out@ =~= self@.message());
            },
        }
        out
    }
}

} // verus!
