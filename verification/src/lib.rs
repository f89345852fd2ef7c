//! A verified lexical scanner for a small dynamic scripting language.
//!
//! [`scan`] turns a source text into its tokens in one forward pass, and
//! [`scan_with_diagnostics`] hands out the lexical diagnostics as well.
//! What the pass does is defined in [`grammar`], over the bytes of the
//! source; the scanner is proved to compute exactly that, and [`laws`]
//! states what holds of every scan.

pub mod charset;
pub mod diagnostic;
pub mod grammar;
pub mod keyword;
pub mod laws;
pub mod scanner;
pub mod text;
pub mod token;

pub use crate::charset::{is_alpha, is_alphanumeric, is_digit};
pub use crate::diagnostic::Diagnostic;
pub use crate::scanner::{scan, scan_with_diagnostics};
pub use crate::token::{Token, TokenKind};
