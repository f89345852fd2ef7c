use stingrs::charset::{run_end, ByteClass};
use stingrs::keyword::keyword_kind;
use stingrs::{
    is_alpha, is_alphanumeric, is_digit, scan, scan_with_diagnostics, Diagnostic, TokenKind,
};

#[test]
fn token_with_text_to_string() {
    let tokens = scan("for x");
    assert_eq!(tokens[0].to_string(), "[102, 111, 114], For, 1");
    assert_eq!(tokens[1].to_string(), "[120], Identifier, 1");
}

#[test]
fn token_without_text_to_string() {
    let tokens = scan("(\n<=");
    assert_eq!(tokens[0].to_string(), "None, LeftParen, 1");
    assert_eq!(tokens[1].to_string(), "None, LessEqual, 2");
    assert_eq!(tokens[2].to_string(), "None, Eof, 2");
}

#[test]
fn empty_string_token_to_string() {
    let tokens = scan("\"\"");
    assert_eq!(tokens[0].to_string(), "[], String, 1");
}

#[test]
fn string_token_to_string_lists_bytes_beyond_ascii() {
    let tokens = scan("\"\u{e9}\n\u{ff}\"");
    assert_eq!(tokens[0].to_string(), "[195, 169, 10, 195, 191], String, 2");
}

#[test]
fn number_token_to_string() {
    let tokens = scan("10.5");
    assert_eq!(tokens[0].to_string(), "[49, 48, 46, 53], Number, 1");
}

#[test]
fn to_string_writes_lines_of_several_digits() {
    let source = format!("{}x{}y", "\n".repeat(9), "\n".repeat(1225));
    let tokens = scan(&source);
    assert_eq!(tokens[0].to_string(), "[120], Identifier, 10");
    assert_eq!(tokens[1].to_string(), "[121], Identifier, 1235");
    assert_eq!(tokens[2].to_string(), "None, Eof, 1235");
}

#[test]
fn to_string_names_every_kind() {
    let source = "( ) { } , . - + ; / * ! != = == > >= < <= x \"s\" 1 nil true false and or if \
                  else class super this for while fun return var print";
    let names = [
        "LeftParen",
        "RightParen",
        "LeftBrace",
        "RightBrace",
        "Comma",
        "Dot",
        "Minus",
        "Plus",
        "Semicolon",
        "Slash",
        "Star",
        "Bang",
        "BangEqual",
        "Equal",
        "EqualEqual",
        "Greater",
        "GreaterEqual",
        "Less",
        "LessEqual",
        "Identifier",
        "String",
        "Number",
        "Nil",
        "True",
        "False",
        "And",
        "Or",
        "If",
        "Else",
        "Class",
        "Super",
        "This",
        "For",
        "While",
        "Fun",
        "Return",
        "Var",
        "Print",
        "Eof",
    ];
    let tokens = scan(source);
    assert_eq!(tokens.len(), names.len());
    for (token, name) in tokens.iter().zip(names) {
        assert_eq!(token.kind().name(), name);
        assert_eq!(format!("{:?}", token.kind()), name);
        let rendered = token.to_string();
        let parts: Vec<&str> = rendered.rsplitn(3, ", ").collect();
        assert_eq!(parts[0], "1");
        assert_eq!(parts[1], name);
    }
}

#[test]
fn token_accessors() {
    let tokens = scan("\nwhile");
    assert_eq!(tokens[0].kind(), TokenKind::While);
    assert_eq!(tokens[0].literal(), Some("while"));
    assert_eq!(tokens[0].line(), 2);
    assert_eq!(tokens[1].kind(), TokenKind::Eof);
    assert_eq!(tokens[1].literal(), None);
    assert_eq!(tokens[1].line(), 2);
}

#[test]
fn default_kind_is_eof() {
    assert_eq!(TokenKind::default(), TokenKind::Eof);
}

#[test]
fn unknown_character_message() {
    let diagnostic = Diagnostic::UnknownCharacter { line: 1, byte: b'@' };
    assert_eq!(diagnostic.message(), "Error: unknown token @ at line 1");
    assert_eq!(diagnostic.line(), 1);
}

#[test]
fn unknown_character_message_beyond_ascii() {
    let diagnostic = Diagnostic::UnknownCharacter { line: 30, byte: 0xc3 };
    assert_eq!(diagnostic.message(), "Error: unknown token \u{fffd} at line 30");
    let diagnostic = Diagnostic::UnknownCharacter { line: 2, byte: 0x7f };
    assert_eq!(diagnostic.message(), "Error: unknown token \u{7f} at line 2");
    let diagnostic = Diagnostic::UnknownCharacter { line: 2, byte: 0x80 };
    assert_eq!(diagnostic.message(), "Error: unknown token \u{fffd} at line 2");
}

#[test]
fn unterminated_string_message() {
    let diagnostic = Diagnostic::UnterminatedString { line: 1 };
    assert_eq!(diagnostic.message(), "Error: unterminated string at line 1");
    assert_eq!(diagnostic.line(), 1);
    let diagnostic = Diagnostic::UnterminatedString { line: 4096 };
    assert_eq!(diagnostic.message(), "Error: unterminated string at line 4096");
    assert_eq!(diagnostic.line(), 4096);
}

#[test]
fn messages_of_a_scan() {
    let mut diagnostics = Vec::new();
    scan_with_diagnostics("x ? y\n\n\"z", &mut diagnostics);
    let messages: Vec<String> = diagnostics.iter().map(|d| d.message()).collect();
    assert_eq!(
        messages,
        vec![
            "Error: unknown token ? at line 1",
            "Error: unterminated string at line 3",
        ]
    );
}

#[test]
fn decimal_of_zero_and_of_the_largest_line() {
    assert_eq!(
        Diagnostic::UnterminatedString { line: 0 }.message(),
        "Error: unterminated string at line 0"
    );
    assert_eq!(
        Diagnostic::UnterminatedString { line: usize::MAX }.message(),
        format!("Error: unterminated string at line {}", usize::MAX)
    );
    assert_eq!(
        Diagnostic::UnterminatedString { line: 1000 }.message(),
        "Error: unterminated string at line 1000"
    );
}

#[test]
fn alpha_bytes() {
    for b in 0..=255u8 {
        let expected = b.is_ascii_alphabetic() || b == b'_';
        assert_eq!(is_alpha(&b), expected);
    }
    assert!(is_alpha(&b'a'));
    assert!(is_alpha(&b'z'));
    assert!(is_alpha(&b'A'));
    assert!(is_alpha(&b'Z'));
    assert!(is_alpha(&b'_'));
    assert!(!is_alpha(&b'`'));
    assert!(!is_alpha(&b'{'));
    assert!(!is_alpha(&b'@'));
    assert!(!is_alpha(&b'['));
    assert!(!is_alpha(&b'0'));
}

#[test]
fn digit_bytes() {
    for b in 0..=255u8 {
        assert_eq!(is_digit(&b), b.is_ascii_digit());
    }
    assert!(is_digit(&b'0'));
    assert!(is_digit(&b'9'));
    assert!(!is_digit(&b'/'));
    assert!(!is_digit(&b':'));
}

#[test]
fn alphanumeric_bytes() {
    for b in 0..=255u8 {
        let expected = b.is_ascii_alphanumeric() || b == b'_';
        assert_eq!(is_alphanumeric(&b), expected);
    }
}

#[test]
fn byte_classes() {
    assert!(ByteClass::Digit.contains(b'7'));
    assert!(!ByteClass::Digit.contains(b'a'));
    assert!(ByteClass::Word.contains(b'7'));
    assert!(ByteClass::Word.contains(b'_'));
    assert!(!ByteClass::Word.contains(b'-'));
    assert!(ByteClass::CommentBody.contains(b'"'));
    assert!(!ByteClass::CommentBody.contains(b'\n'));
    assert!(ByteClass::StringBody.contains(b'\n'));
    assert!(!ByteClass::StringBody.contains(b'"'));
}

#[test]
fn runs() {
    let src = b"123abc_9 \"x\ny\" // z";
    assert_eq!(run_end(src, 0, ByteClass::Digit), 3);
    assert_eq!(run_end(src, 3, ByteClass::Digit), 3);
    assert_eq!(run_end(src, 0, ByteClass::Word), 8);
    assert_eq!(run_end(src, 3, ByteClass::Word), 8);
    assert_eq!(run_end(src, 10, ByteClass::StringBody), 13);
    assert_eq!(run_end(src, 0, ByteClass::CommentBody), 11);
    assert_eq!(run_end(src, 12, ByteClass::CommentBody), src.len());
    assert_eq!(run_end(src, src.len(), ByteClass::Word), src.len());
    assert_eq!(run_end(b"", 0, ByteClass::Word), 0);
}

#[test]
fn keyword_lookup() {
    assert_eq!(keyword_kind(b"and"), Some(TokenKind::And));
    assert_eq!(keyword_kind(b"class"), Some(TokenKind::Class));
    assert_eq!(keyword_kind(b"else"), Some(TokenKind::Else));
    assert_eq!(keyword_kind(b"false"), Some(TokenKind::False));
    assert_eq!(keyword_kind(b"fun"), Some(TokenKind::Fun));
    assert_eq!(keyword_kind(b"for"), Some(TokenKind::For));
    assert_eq!(keyword_kind(b"if"), Some(TokenKind::If));
    assert_eq!(keyword_kind(b"nil"), Some(TokenKind::Nil));
    assert_eq!(keyword_kind(b"or"), Some(TokenKind::Or));
    assert_eq!(keyword_kind(b"print"), Some(TokenKind::Print));
    assert_eq!(keyword_kind(b"return"), Some(TokenKind::Return));
    assert_eq!(keyword_kind(b"super"), Some(TokenKind::Super));
    assert_eq!(keyword_kind(b"this"), Some(TokenKind::This));
    assert_eq!(keyword_kind(b"true"), Some(TokenKind::True));
    assert_eq!(keyword_kind(b"var"), Some(TokenKind::Var));
    assert_eq!(keyword_kind(b"while"), Some(TokenKind::While));
}

#[test]
fn keyword_lookup_is_exact() {
    for word in [
        &b""[..],
        b"Print",
        b"AND",
        b"an",
        b"andy",
        b" and",
        b"and ",
        b"whil",
        b"whilee",
        b"identifier",
        b"eof",
    ] {
        assert_eq!(keyword_kind(word), None);
    }
}
