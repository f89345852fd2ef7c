use stingrs::{scan, scan_with_diagnostics, Diagnostic, Token, TokenKind};

type Summary = (TokenKind, Option<String>, usize);

fn summary(tokens: &[Token]) -> Vec<Summary> {
    tokens
        .iter()
        .map(|t| (t.kind(), t.literal().map(|s| s.to_string()), t.line()))
        .collect()
}

fn bare(kind: TokenKind, line: usize) -> Summary {
    (kind, None, line)
}

fn text(kind: TokenKind, literal: &str, line: usize) -> Summary {
    (kind, Some(literal.to_string()), line)
}

fn kinds(source: &str) -> Vec<TokenKind> {
    scan(source).iter().map(|t| t.kind()).collect()
}

#[test]
fn empty_source_is_only_eof() {
    assert_eq!(summary(&scan("")), vec![bare(TokenKind::Eof, 1)]);
}

#[test]
fn every_single_character_token() {
    let cases = [
        ("(", TokenKind::LeftParen),
        (")", TokenKind::RightParen),
        ("{", TokenKind::LeftBrace),
        ("}", TokenKind::RightBrace),
        (",", TokenKind::Comma),
        (".", TokenKind::Dot),
        ("-", TokenKind::Minus),
        ("+", TokenKind::Plus),
        (";", TokenKind::Semicolon),
        ("*", TokenKind::Star),
        ("/", TokenKind::Slash),
        ("!", TokenKind::Bang),
        ("=", TokenKind::Equal),
        (">", TokenKind::Greater),
        ("<", TokenKind::Less),
    ];
    for (source, kind) in cases {
        let mut diagnostics = Vec::new();
        let tokens = scan_with_diagnostics(source, &mut diagnostics);
        assert_eq!(summary(&tokens), vec![bare(kind, 1), bare(TokenKind::Eof, 1)]);
        assert!(diagnostics.is_empty());
    }
}

#[test]
fn maximal_munch_equal_equal() {
    assert_eq!(
        summary(&scan("==")),
        vec![bare(TokenKind::EqualEqual, 1), bare(TokenKind::Eof, 1)]
    );
}

#[test]
fn bang_alone_is_bang() {
    assert_eq!(
        summary(&scan("!")),
        vec![bare(TokenKind::Bang, 1), bare(TokenKind::Eof, 1)]
    );
}

#[test]
fn every_two_character_operator() {
    assert_eq!(kinds("!="), vec![TokenKind::BangEqual, TokenKind::Eof]);
    assert_eq!(kinds("=="), vec![TokenKind::EqualEqual, TokenKind::Eof]);
    assert_eq!(kinds(">="), vec![TokenKind::GreaterEqual, TokenKind::Eof]);
    assert_eq!(kinds("<="), vec![TokenKind::LessEqual, TokenKind::Eof]);
}

#[test]
fn operators_take_the_longest_match_from_the_left() {
    assert_eq!(
        kinds("==="),
        vec![TokenKind::EqualEqual, TokenKind::Equal, TokenKind::Eof]
    );
    assert_eq!(
        kinds("!=="),
        vec![TokenKind::BangEqual, TokenKind::Equal, TokenKind::Eof]
    );
    assert_eq!(
        kinds("! ="),
        vec![TokenKind::Bang, TokenKind::Equal, TokenKind::Eof]
    );
    assert_eq!(
        kinds("<>"),
        vec![TokenKind::Less, TokenKind::Greater, TokenKind::Eof]
    );
    assert_eq!(
        kinds("=!"),
        vec![TokenKind::Equal, TokenKind::Bang, TokenKind::Eof]
    );
}

#[test]
fn operator_before_a_newline_is_the_short_form() {
    assert_eq!(
        summary(&scan("=\n=")),
        vec![
            bare(TokenKind::Equal, 1),
            bare(TokenKind::Equal, 2),
            bare(TokenKind::Eof, 2),
        ]
    );
}

#[test]
fn line_tracking() {
    assert_eq!(
        summary(&scan("a\nb\nc")),
        vec![
            text(TokenKind::Identifier, "a", 1),
            text(TokenKind::Identifier, "b", 2),
            text(TokenKind::Identifier, "c", 3),
            bare(TokenKind::Eof, 3),
        ]
    );
}

#[test]
fn eof_is_on_the_line_after_a_trailing_newline() {
    assert_eq!(
        summary(&scan("a\n")),
        vec![text(TokenKind::Identifier, "a", 1), bare(TokenKind::Eof, 2)]
    );
    assert_eq!(summary(&scan("\n\n\n")), vec![bare(TokenKind::Eof, 4)]);
}

#[test]
fn blanks_yield_nothing() {
    assert_eq!(summary(&scan(" \t\r ")), vec![bare(TokenKind::Eof, 1)]);
    assert_eq!(
        summary(&scan(" \t(\r\n )")),
        vec![
            bare(TokenKind::LeftParen, 1),
            bare(TokenKind::RightParen, 2),
            bare(TokenKind::Eof, 2),
        ]
    );
}

#[test]
fn keyword_for() {
    assert_eq!(
        summary(&scan("for")),
        vec![text(TokenKind::For, "for", 1), bare(TokenKind::Eof, 1)]
    );
}

#[test]
fn forest_is_an_identifier() {
    assert_eq!(
        summary(&scan("forest")),
        vec![
            text(TokenKind::Identifier, "forest", 1),
            bare(TokenKind::Eof, 1),
        ]
    );
}

#[test]
fn every_reserved_word() {
    let cases = [
        ("and", TokenKind::And),
        ("class", TokenKind::Class),
        ("else", TokenKind::Else),
        ("false", TokenKind::False),
        ("fun", TokenKind::Fun),
        ("for", TokenKind::For),
        ("if", TokenKind::If),
        ("nil", TokenKind::Nil),
        ("or", TokenKind::Or),
        ("print", TokenKind::Print),
        ("return", TokenKind::Return),
        ("super", TokenKind::Super),
        ("this", TokenKind::This),
        ("true", TokenKind::True),
        ("var", TokenKind::Var),
        ("while", TokenKind::While),
    ];
    for (word, kind) in cases {
        assert_eq!(
            summary(&scan(word)),
            vec![text(kind, word, 1), bare(TokenKind::Eof, 1)]
        );
    }
}

#[test]
fn reserved_words_are_lower_case() {
    for word in ["Print", "PRINT", "For", "IF", "Nil", "True", "While"] {
        assert_eq!(
            summary(&scan(word)),
            vec![text(TokenKind::Identifier, word, 1), bare(TokenKind::Eof, 1)]
        );
    }
}

#[test]
fn a_reserved_word_inside_a_longer_word_is_not_reserved() {
    for word in ["fork", "for_", "for1", "_for", "iff", "orchid", "classy", "nil0"] {
        assert_eq!(
            summary(&scan(word)),
            vec![text(TokenKind::Identifier, word, 1), bare(TokenKind::Eof, 1)]
        );
    }
}

#[test]
fn identifiers() {
    assert_eq!(
        summary(&scan("_ a1 snake_case CamelCase x_9_")),
        vec![
            text(TokenKind::Identifier, "_", 1),
            text(TokenKind::Identifier, "a1", 1),
            text(TokenKind::Identifier, "snake_case", 1),
            text(TokenKind::Identifier, "CamelCase", 1),
            text(TokenKind::Identifier, "x_9_", 1),
            bare(TokenKind::Eof, 1),
        ]
    );
}

#[test]
fn a_word_ends_at_the_first_other_byte() {
    assert_eq!(
        summary(&scan("ab+cd")),
        vec![
            text(TokenKind::Identifier, "ab", 1),
            bare(TokenKind::Plus, 1),
            text(TokenKind::Identifier, "cd", 1),
            bare(TokenKind::Eof, 1),
        ]
    );
}

#[test]
fn comment_skipping() {
    assert_eq!(
        summary(&scan("1 // comment\n2")),
        vec![
            text(TokenKind::Number, "1", 1),
            text(TokenKind::Number, "2", 2),
            bare(TokenKind::Eof, 2),
        ]
    );
}

#[test]
fn comment_up_to_the_end_of_input() {
    assert_eq!(
        summary(&scan("1 // comment")),
        vec![text(TokenKind::Number, "1", 1), bare(TokenKind::Eof, 1)]
    );
    assert_eq!(summary(&scan("//")), vec![bare(TokenKind::Eof, 1)]);
    assert_eq!(summary(&scan("///")), vec![bare(TokenKind::Eof, 1)]);
    assert_eq!(summary(&scan("//\n")), vec![bare(TokenKind::Eof, 2)]);
}

#[test]
fn comment_hides_quotes_and_unknown_characters() {
    let mut diagnostics = Vec::new();
    let tokens = scan_with_diagnostics("// \"open @ #\nx", &mut diagnostics);
    assert_eq!(
        summary(&tokens),
        vec![text(TokenKind::Identifier, "x", 2), bare(TokenKind::Eof, 2)]
    );
    assert!(diagnostics.is_empty());
}

#[test]
fn slash_alone_is_a_token() {
    assert_eq!(
        summary(&scan("a / b")),
        vec![
            text(TokenKind::Identifier, "a", 1),
            bare(TokenKind::Slash, 1),
            text(TokenKind::Identifier, "b", 1),
            bare(TokenKind::Eof, 1),
        ]
    );
    assert_eq!(
        kinds("/ /"),
        vec![TokenKind::Slash, TokenKind::Slash, TokenKind::Eof]
    );
}

#[test]
fn string_literal() {
    assert_eq!(
        summary(&scan("\"abc\"")),
        vec![text(TokenKind::String, "abc", 1), bare(TokenKind::Eof, 1)]
    );
}

#[test]
fn empty_string_literal() {
    assert_eq!(
        summary(&scan("\"\"")),
        vec![text(TokenKind::String, "", 1), bare(TokenKind::Eof, 1)]
    );
}

#[test]
fn string_over_several_lines_is_on_the_line_of_its_closing_quote() {
    assert_eq!(
        summary(&scan("a \"x\ny\nz\" b\nc")),
        vec![
            text(TokenKind::Identifier, "a", 1),
            text(TokenKind::String, "x\ny\nz", 3),
            text(TokenKind::Identifier, "b", 3),
            text(TokenKind::Identifier, "c", 4),
            bare(TokenKind::Eof, 4),
        ]
    );
}

#[test]
fn string_has_no_escapes() {
    assert_eq!(
        summary(&scan("\"a\\\" b")),
        vec![
            text(TokenKind::String, "a\\", 1),
            text(TokenKind::Identifier, "b", 1),
            bare(TokenKind::Eof, 1),
        ]
    );
}

#[test]
fn string_keeps_what_it_holds() {
    assert_eq!(
        summary(&scan("\"for // 1.5 @ (\"")),
        vec![
            text(TokenKind::String, "for // 1.5 @ (", 1),
            bare(TokenKind::Eof, 1),
        ]
    );
}

#[test]
fn string_with_text_beyond_ascii() {
    assert_eq!(
        summary(&scan("\"h\u{e9}llo \u{4e16}\u{754c} \u{1f600}\" x")),
        vec![
            text(TokenKind::String, "h\u{e9}llo \u{4e16}\u{754c} \u{1f600}", 1),
            text(TokenKind::Identifier, "x", 1),
            bare(TokenKind::Eof, 1),
        ]
    );
}

#[test]
fn adjacent_strings() {
    assert_eq!(
        summary(&scan("\"a\"\"b\"")),
        vec![
            text(TokenKind::String, "a", 1),
            text(TokenKind::String, "b", 1),
            bare(TokenKind::Eof, 1),
        ]
    );
}

#[test]
fn unterminated_string() {
    let mut diagnostics = Vec::new();
    let tokens = scan_with_diagnostics("\"abc", &mut diagnostics);
    assert_eq!(summary(&tokens), vec![bare(TokenKind::Eof, 1)]);
    assert_eq!(diagnostics, vec![Diagnostic::UnterminatedString { line: 1 }]);
    assert!(tokens.iter().all(|t| t.kind() != TokenKind::String));
}

#[test]
fn unterminated_string_keeps_the_tokens_before_it() {
    let mut diagnostics = Vec::new();
    let tokens = scan_with_diagnostics("var x = \"abc", &mut diagnostics);
    assert_eq!(
        summary(&tokens),
        vec![
            text(TokenKind::Var, "var", 1),
            text(TokenKind::Identifier, "x", 1),
            bare(TokenKind::Equal, 1),
            bare(TokenKind::Eof, 1),
        ]
    );
    assert_eq!(diagnostics, vec![Diagnostic::UnterminatedString { line: 1 }]);
}

#[test]
fn unterminated_string_is_reported_on_its_first_line() {
    let mut diagnostics = Vec::new();
    let tokens = scan_with_diagnostics("a\n\"b\nc\nd e f", &mut diagnostics);
    assert_eq!(
        summary(&tokens),
        vec![text(TokenKind::Identifier, "a", 1), bare(TokenKind::Eof, 4)]
    );
    assert_eq!(diagnostics, vec![Diagnostic::UnterminatedString { line: 2 }]);
}

#[test]
fn lone_quote_is_an_unterminated_string() {
    let mut diagnostics = Vec::new();
    let tokens = scan_with_diagnostics("\"", &mut diagnostics);
    assert_eq!(summary(&tokens), vec![bare(TokenKind::Eof, 1)]);
    assert_eq!(diagnostics, vec![Diagnostic::UnterminatedString { line: 1 }]);
}

#[test]
fn unknown_character() {
    let mut diagnostics = Vec::new();
    let tokens = scan_with_diagnostics("@", &mut diagnostics);
    assert_eq!(summary(&tokens), vec![bare(TokenKind::Eof, 1)]);
    assert_eq!(
        diagnostics,
        vec![Diagnostic::UnknownCharacter { line: 1, byte: b'@' }]
    );
}

#[test]
fn unknown_character_does_not_stop_the_scan() {
    let mut diagnostics = Vec::new();
    let tokens = scan_with_diagnostics("a @ b\n# c", &mut diagnostics);
    assert_eq!(
        summary(&tokens),
        vec![
            text(TokenKind::Identifier, "a", 1),
            text(TokenKind::Identifier, "b", 1),
            text(TokenKind::Identifier, "c", 2),
            bare(TokenKind::Eof, 2),
        ]
    );
    assert_eq!(
        diagnostics,
        vec![
            Diagnostic::UnknownCharacter { line: 1, byte: b'@' },
            Diagnostic::UnknownCharacter { line: 2, byte: b'#' },
        ]
    );
}

#[test]
fn unknown_character_splits_a_word() {
    assert_eq!(
        summary(&scan("a@b")),
        vec![
            text(TokenKind::Identifier, "a", 1),
            text(TokenKind::Identifier, "b", 1),
            bare(TokenKind::Eof, 1),
        ]
    );
}

#[test]
fn every_byte_of_a_character_beyond_ascii_is_unknown() {
    let mut diagnostics = Vec::new();
    let tokens = scan_with_diagnostics("x \u{e9} y", &mut diagnostics);
    assert_eq!(
        summary(&tokens),
        vec![
            text(TokenKind::Identifier, "x", 1),
            text(TokenKind::Identifier, "y", 1),
            bare(TokenKind::Eof, 1),
        ]
    );
    assert_eq!(
        diagnostics,
        vec![
            Diagnostic::UnknownCharacter { line: 1, byte: 0xc3 },
            Diagnostic::UnknownCharacter { line: 1, byte: 0xa9 },
        ]
    );
}

#[test]
fn other_ascii_bytes_are_unknown() {
    for source in [
        "#", "$", "%", "&", "'", ":", "?", "@", "[", "\\", "]", "^", "`", "|", "~", "\0", "\u{7f}",
    ] {
        let mut diagnostics = Vec::new();
        let tokens = scan_with_diagnostics(source, &mut diagnostics);
        assert_eq!(summary(&tokens), vec![bare(TokenKind::Eof, 1)]);
        assert_eq!(
            diagnostics,
            vec![Diagnostic::UnknownCharacter { line: 1, byte: source.as_bytes()[0] }]
        );
    }
}

#[test]
fn diagnostics_are_appended() {
    let mut diagnostics = vec![Diagnostic::UnterminatedString { line: 7 }];
    scan_with_diagnostics("@", &mut diagnostics);
    scan_with_diagnostics("ok", &mut diagnostics);
    scan_with_diagnostics("\n\"", &mut diagnostics);
    assert_eq!(
        diagnostics,
        vec![
            Diagnostic::UnterminatedString { line: 7 },
            Diagnostic::UnknownCharacter { line: 1, byte: b'@' },
            Diagnostic::UnterminatedString { line: 2 },
        ]
    );
}

#[test]
fn number_with_trailing_dot() {
    assert_eq!(
        summary(&scan("5.")),
        vec![text(TokenKind::Number, "5.", 1), bare(TokenKind::Eof, 1)]
    );
}

#[test]
fn numbers() {
    assert_eq!(
        summary(&scan("0 12 3.25 007 10.0")),
        vec![
            text(TokenKind::Number, "0", 1),
            text(TokenKind::Number, "12", 1),
            text(TokenKind::Number, "3.25", 1),
            text(TokenKind::Number, "007", 1),
            text(TokenKind::Number, "10.0", 1),
            bare(TokenKind::Eof, 1),
        ]
    );
}

#[test]
fn number_takes_one_dot_only() {
    assert_eq!(
        summary(&scan("1.2.3")),
        vec![
            text(TokenKind::Number, "1.2", 1),
            bare(TokenKind::Dot, 1),
            text(TokenKind::Number, "3", 1),
            bare(TokenKind::Eof, 1),
        ]
    );
    assert_eq!(
        summary(&scan("1..2")),
        vec![
            text(TokenKind::Number, "1.", 1),
            bare(TokenKind::Dot, 1),
            text(TokenKind::Number, "2", 1),
            bare(TokenKind::Eof, 1),
        ]
    );
}

#[test]
fn number_with_trailing_dot_before_other_tokens() {
    assert_eq!(
        summary(&scan("5.x")),
        vec![
            text(TokenKind::Number, "5.", 1),
            text(TokenKind::Identifier, "x", 1),
            bare(TokenKind::Eof, 1),
        ]
    );
    assert_eq!(
        summary(&scan("5.\n6")),
        vec![
            text(TokenKind::Number, "5.", 1),
            text(TokenKind::Number, "6", 2),
            bare(TokenKind::Eof, 2),
        ]
    );
}

#[test]
fn dot_before_digits_is_its_own_token() {
    assert_eq!(
        summary(&scan(".5")),
        vec![
            bare(TokenKind::Dot, 1),
            text(TokenKind::Number, "5", 1),
            bare(TokenKind::Eof, 1),
        ]
    );
}

#[test]
fn digits_then_letters_are_two_tokens() {
    assert_eq!(
        summary(&scan("12ab")),
        vec![
            text(TokenKind::Number, "12", 1),
            text(TokenKind::Identifier, "ab", 1),
            bare(TokenKind::Eof, 1),
        ]
    );
}

#[test]
fn minus_is_not_part_of_a_number() {
    assert_eq!(
        summary(&scan("-1")),
        vec![
            bare(TokenKind::Minus, 1),
            text(TokenKind::Number, "1", 1),
            bare(TokenKind::Eof, 1),
        ]
    );
}

#[test]
fn a_small_program() {
    let source = "\
// counts to three
var i = 0;
while (i < 3) {
    print \"i is\"; print i;
    i = i + 1.5 * 2 / (4 - 1);
}
if (i >= 3 and !done or i != 4) return nil; else fun_;
";
    let mut diagnostics = Vec::new();
    let tokens = scan_with_diagnostics(source, &mut diagnostics);
    assert!(diagnostics.is_empty());
    assert_eq!(
        summary(&tokens),
        vec![
            text(TokenKind::Var, "var", 2),
            text(TokenKind::Identifier, "i", 2),
            bare(TokenKind::Equal, 2),
            text(TokenKind::Number, "0", 2),
            bare(TokenKind::Semicolon, 2),
            text(TokenKind::While, "while", 3),
            bare(TokenKind::LeftParen, 3),
            text(TokenKind::Identifier, "i", 3),
            bare(TokenKind::Less, 3),
            text(TokenKind::Number, "3", 3),
            bare(TokenKind::RightParen, 3),
            bare(TokenKind::LeftBrace, 3),
            text(TokenKind::Print, "print", 4),
            text(TokenKind::String, "i is", 4),
            bare(TokenKind::Semicolon, 4),
            text(TokenKind::Print, "print", 4),
            text(TokenKind::Identifier, "i", 4),
            bare(TokenKind::Semicolon, 4),
            text(TokenKind::Identifier, "i", 5),
            bare(TokenKind::Equal, 5),
            text(TokenKind::Identifier, "i", 5),
            bare(TokenKind::Plus, 5),
            text(TokenKind::Number, "1.5", 5),
            bare(TokenKind::Star, 5),
            text(TokenKind::Number, "2", 5),
            bare(TokenKind::Slash, 5),
            bare(TokenKind::LeftParen, 5),
            text(TokenKind::Number, "4", 5),
            bare(TokenKind::Minus, 5),
            text(TokenKind::Number, "1", 5),
            bare(TokenKind::RightParen, 5),
            bare(TokenKind::Semicolon, 5),
            bare(TokenKind::RightBrace, 6),
            text(TokenKind::If, "if", 7),
            bare(TokenKind::LeftParen, 7),
            text(TokenKind::Identifier, "i", 7),
            bare(TokenKind::GreaterEqual, 7),
            text(TokenKind::Number, "3", 7),
            text(TokenKind::And, "and", 7),
            bare(TokenKind::Bang, 7),
            text(TokenKind::Identifier, "done", 7),
            text(TokenKind::Or, "or", 7),
            text(TokenKind::Identifier, "i", 7),
            bare(TokenKind::BangEqual, 7),
            text(TokenKind::Number, "4", 7),
            bare(TokenKind::RightParen, 7),
            text(TokenKind::Return, "return", 7),
            text(TokenKind::Nil, "nil", 7),
            bare(TokenKind::Semicolon, 7),
            text(TokenKind::Else, "else", 7),
            text(TokenKind::Identifier, "fun_", 7),
            bare(TokenKind::Semicolon, 7),
            bare(TokenKind::Eof, 8),
        ]
    );
}

#[test]
fn scans_are_independent() {
    let first = summary(&scan("a\n\"b"));
    let second = summary(&scan("c"));
    let third = summary(&scan("a\n\"b"));
    assert_eq!(
        second,
        vec![text(TokenKind::Identifier, "c", 1), bare(TokenKind::Eof, 1)]
    );
    assert_eq!(first, third);
}

#[test]
fn scan_takes_a_string_by_reference() {
    let source = String::from("x = 1");
    assert_eq!(
        kinds(&source),
        vec![
            TokenKind::Identifier,
            TokenKind::Equal,
            TokenKind::Number,
            TokenKind::Eof,
        ]
    );
}
