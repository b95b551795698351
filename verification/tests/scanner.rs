use bhascode::Hints;
use bhascode::Lexer;
use bhascode::LexerError;
use bhascode::PunctuationKind;
use bhascode::TokenType;

#[test]
fn identifier_round_trip() {
    let mut lexer = Lexer::new("abc_123");
    let token = lexer.next_token().unwrap();
    assert_eq!(token.kind, TokenType::Identifier);
    assert_eq!(token.lexeme, "abc_123");
    assert_eq!(lexer.next_token().unwrap().kind, TokenType::EndOfInput);
}

#[test]
fn keyword_token() {
    let mut lexer = Lexer::new("int");
    let token = lexer.next_token().unwrap();
    assert_eq!(token.kind, TokenType::Keyword);
    assert_eq!(token.lexeme, "int");
}

#[test]
fn numeric_acceptance_table() {
    let mut lexer = Lexer::new("123");
    let token = lexer.next_token().unwrap();
    assert_eq!(token.kind, TokenType::Numeric { hint: Hints::IntegerValue });
    assert_eq!(token.lexeme, "123");

    let mut lexer = Lexer::new("1.05");
    let token = lexer.next_token().unwrap();
    assert_eq!(token.kind, TokenType::Numeric { hint: Hints::FloatingPointValue });
    assert_eq!(token.lexeme, "1.05");

    let mut lexer = Lexer::new("1e5");
    let token = lexer.next_token().unwrap();
    assert_eq!(token.kind, TokenType::Numeric { hint: Hints::FloatingPointValue });
    assert_eq!(token.lexeme, "1e5");

    let mut lexer = Lexer::new("2ee");
    let error = lexer.next_token().unwrap_err();
    assert_eq!(
        error,
        LexerError::NumericLiteralError { raw: "2ee".to_string(), hint: Hints::ExtraneousSymbol }
    );
}

#[test]
fn numeric_rejections() {
    // A second decimal point is consumed and rejected.
    let mut lexer = Lexer::new("1.2.3");
    let error = lexer.next_token().unwrap_err();
    assert_eq!(
        error,
        LexerError::NumericLiteralError { raw: "1.2.".to_string(), hint: Hints::ExtraneousSymbol }
    );
    // Scanning resumes after the rejected literal.
    let token = lexer.next_token().unwrap();
    assert_eq!(token.kind, TokenType::Numeric { hint: Hints::IntegerValue });
    assert_eq!(token.lexeme, "3");

    // An exponent marker with no digits is missing its expected symbol.
    let mut lexer = Lexer::new("1e");
    let error = lexer.next_token().unwrap_err();
    assert_eq!(
        error,
        LexerError::NumericLiteralError {
            raw: "1e".to_string(),
            hint: Hints::MissingExpectedSymbol,
        }
    );

    let mut lexer = Lexer::new("1e ");
    let error = lexer.next_token().unwrap_err();
    assert_eq!(
        error,
        LexerError::NumericLiteralError {
            raw: "1e".to_string(),
            hint: Hints::MissingExpectedSymbol,
        }
    );

    let mut lexer = Lexer::new("1e+");
    let error = lexer.next_token().unwrap_err();
    assert_eq!(
        error,
        LexerError::NumericLiteralError {
            raw: "1e+".to_string(),
            hint: Hints::MissingExpectedSymbol,
        }
    );

    let mut lexer = Lexer::new("1e%");
    let error = lexer.next_token().unwrap_err();
    assert_eq!(
        error,
        LexerError::NumericLiteralError { raw: "1e%".to_string(), hint: Hints::ExtraneousSymbol }
    );

    // An alphabetic character trailing the run is recorded but not consumed.
    let mut lexer = Lexer::new("123abc");
    let error = lexer.next_token().unwrap_err();
    assert_eq!(
        error,
        LexerError::NumericLiteralError {
            raw: "123a".to_string(),
            hint: Hints::MalformedTrailingText,
        }
    );
    let token = lexer.next_token().unwrap();
    assert_eq!(token.kind, TokenType::Identifier);
    assert_eq!(token.lexeme, "abc");
}

#[test]
fn numeric_trailing_point_accepted() {
    let mut lexer = Lexer::new("1.");
    let token = lexer.next_token().unwrap();
    assert_eq!(token.kind, TokenType::Numeric { hint: Hints::FloatingPointValue });
    assert_eq!(token.lexeme, "1.");
}

#[test]
fn bracket_balance_sequence() {
    let mut lexer = Lexer::new("(){]}");

    let token = lexer.next_token().unwrap();
    assert_eq!(
        token.kind,
        TokenType::Punctuation { raw: '(', kind: PunctuationKind::Open(0) }
    );

    let token = lexer.next_token().unwrap();
    assert_eq!(
        token.kind,
        TokenType::Punctuation { raw: ')', kind: PunctuationKind::Close(0) }
    );

    let token = lexer.next_token().unwrap();
    assert_eq!(
        token.kind,
        TokenType::Punctuation { raw: '{', kind: PunctuationKind::Open(0) }
    );

    let error = lexer.next_token().unwrap_err();
    assert_eq!(error, LexerError::MisbalancedSymbol { symbol: ']', open: '[' });

    let token = lexer.next_token().unwrap();
    assert_eq!(
        token.kind,
        TokenType::Punctuation { raw: '}', kind: PunctuationKind::Close(0) }
    );
}

#[test]
fn bracket_depth_identifiers() {
    let mut lexer = Lexer::new("((()))");
    for expected in [0, 1, 2] {
        let token = lexer.next_token().unwrap();
        assert_eq!(
            token.kind,
            TokenType::Punctuation { raw: '(', kind: PunctuationKind::Open(expected) }
        );
    }
    for expected in [2, 1, 0] {
        let token = lexer.next_token().unwrap();
        assert_eq!(
            token.kind,
            TokenType::Punctuation { raw: ')', kind: PunctuationKind::Close(expected) }
        );
    }
}

#[test]
fn bracket_cross_family_misnesting() {
    // The ordered stack catches cross-family misnesting: `)` cannot close
    // while `[` is the innermost open bracket.
    let mut lexer = Lexer::new("([)]");
    assert!(lexer.next_token().is_ok());
    assert!(lexer.next_token().is_ok());
    let error = lexer.next_token().unwrap_err();
    assert_eq!(error, LexerError::MisbalancedSymbol { symbol: ')', open: '(' });
    let token = lexer.next_token().unwrap();
    assert_eq!(
        token.kind,
        TokenType::Punctuation { raw: ']', kind: PunctuationKind::Close(0) }
    );
}

#[test]
fn string_escaping() {
    let mut lexer = Lexer::new("\"a\\\"b\"");
    let token = lexer.next_token().unwrap();
    assert_eq!(token.kind, TokenType::StringLiteral);
    assert_eq!(token.lexeme, "a\"b");
    assert_eq!(lexer.next_token().unwrap().kind, TokenType::EndOfInput);
}

#[test]
fn string_empty_and_unterminated() {
    let mut lexer = Lexer::new("\"\"");
    let token = lexer.next_token().unwrap();
    assert_eq!(token.kind, TokenType::StringLiteral);
    assert_eq!(token.lexeme, "");

    let mut lexer = Lexer::new("\"abc");
    let error = lexer.next_token().unwrap_err();
    assert_eq!(
        error,
        LexerError::UnterminatedLiteral {
            kind: TokenType::StringLiteral,
            partial: "abc".to_string(),
        }
    );

    // A raw newline terminates the literal early.
    let mut lexer = Lexer::new("\"ab\ncd\"");
    let error = lexer.next_token().unwrap_err();
    assert_eq!(
        error,
        LexerError::UnterminatedLiteral {
            kind: TokenType::StringLiteral,
            partial: "ab".to_string(),
        }
    );
}

#[test]
fn char_literals() {
    let mut lexer = Lexer::new("'a'");
    let token = lexer.next_token().unwrap();
    assert_eq!(token.kind, TokenType::CharLiteral);
    assert_eq!(token.lexeme, "a");

    // The backslash is dropped and the next character kept literally.
    let mut lexer = Lexer::new("'\\n'");
    let token = lexer.next_token().unwrap();
    assert_eq!(token.kind, TokenType::CharLiteral);
    assert_eq!(token.lexeme, "n");

    let mut lexer = Lexer::new("''");
    let error = lexer.next_token().unwrap_err();
    assert_eq!(
        error,
        LexerError::CharLiteralError { raw: "".to_string(), hint: Hints::EmptyCharLiteral }
    );

    let mut lexer = Lexer::new("'ab'");
    let error = lexer.next_token().unwrap_err();
    assert_eq!(
        error,
        LexerError::CharLiteralError { raw: "ab".to_string(), hint: Hints::ExtraneousSymbol }
    );

    let mut lexer = Lexer::new("'a");
    let error = lexer.next_token().unwrap_err();
    assert_eq!(
        error,
        LexerError::UnterminatedLiteral { kind: TokenType::CharLiteral, partial: "a".to_string() }
    );
}

#[test]
fn comment_line_number() {
    let mut lexer = Lexer::new("# note\nint x = 5");
    let marker = lexer.next_token().unwrap();
    assert_eq!(marker.kind, TokenType::NoOp);
    assert_eq!(marker.lexeme, "");
    let token = lexer.next_token().unwrap();
    assert_eq!(token.kind, TokenType::Keyword);
    assert_eq!(token.position.line, 2);
    assert_eq!(token.position.column, 1);
}

#[test]
fn comment_unterminated_block() {
    let mut lexer = Lexer::new("#- abc");
    let error = lexer.next_token().unwrap_err();
    assert_eq!(
        error,
        LexerError::UnterminatedLiteral { kind: TokenType::NoOp, partial: " abc".to_string() }
    );
}

#[test]
fn comment_block_close_after_dashes() {
    let mut lexer = Lexer::new("#- x --# y");
    let marker = lexer.next_token().unwrap();
    assert_eq!(marker.kind, TokenType::NoOp);
    let token = lexer.next_token().unwrap();
    assert_eq!(token.kind, TokenType::Identifier);
    assert_eq!(token.lexeme, "y");
}

#[test]
fn operators_compound_and_unknown() {
    let mut lexer = Lexer::new("a += 1");
    assert_eq!(lexer.next_token().unwrap().kind, TokenType::Identifier);
    let token = lexer.next_token().unwrap();
    assert_eq!(token.kind, TokenType::Operator);
    assert_eq!(token.lexeme, "+=");
    assert_eq!(
        lexer.next_token().unwrap().kind,
        TokenType::Numeric { hint: Hints::IntegerValue }
    );

    let mut lexer = Lexer::new("x==y");
    assert_eq!(lexer.next_token().unwrap().lexeme, "x");
    let token = lexer.next_token().unwrap();
    assert_eq!(token.kind, TokenType::Operator);
    assert_eq!(token.lexeme, "==");
    assert_eq!(lexer.next_token().unwrap().lexeme, "y");

    let mut lexer = Lexer::new("--");
    let token = lexer.next_token().unwrap();
    assert_eq!(token.kind, TokenType::Operator);
    assert_eq!(token.lexeme, "--");

    let mut lexer = Lexer::new("&&");
    let token = lexer.next_token().unwrap();
    assert_eq!(token.kind, TokenType::Operator);
    assert_eq!(token.lexeme, "&&");

    let mut lexer = Lexer::new("&");
    let error = lexer.next_token().unwrap_err();
    assert_eq!(error, LexerError::UnknownSymbol { symbol: '&' });

    let mut lexer = Lexer::new("$");
    let error = lexer.next_token().unwrap_err();
    assert_eq!(error, LexerError::UnknownSymbol { symbol: '$' });
}

#[test]
fn peek_is_idempotent_and_side_effect_free() {
    let mut lexer = Lexer::new("int x");
    let before = lexer.current_position();
    let p1 = lexer.peek_token().unwrap();
    let p2 = lexer.peek_token().unwrap();
    let p3 = lexer.peek_token().unwrap();
    assert_eq!(p1, p2);
    assert_eq!(p2, p3);
    assert_eq!(lexer.current_position(), before);
    let produced = lexer.next_token().unwrap();
    assert_eq!(produced, p1);
}

#[test]
fn end_of_input_forever() {
    let mut lexer = Lexer::new("a");
    assert_eq!(lexer.next_token().unwrap().kind, TokenType::Identifier);
    for _ in 0..3 {
        let token = lexer.next_token().unwrap();
        assert_eq!(token.kind, TokenType::EndOfInput);
        assert_eq!(token.position.offset, 1);
    }
}

#[test]
fn positions_track_lines_and_columns() {
    let mut lexer = Lexer::new("ab cd\nef");
    let token = lexer.next_token().unwrap();
    assert_eq!((token.position.line, token.position.column, token.position.offset), (1, 1, 0));
    let token = lexer.next_token().unwrap();
    assert_eq!((token.position.line, token.position.column, token.position.offset), (1, 4, 3));
    let token = lexer.next_token().unwrap();
    assert_eq!((token.position.line, token.position.column, token.position.offset), (2, 1, 6));
}

#[test]
fn next_char_consumes_one_character() {
    let mut lexer = Lexer::new("a\nb");
    assert_eq!(lexer.next_char(), Some('a'));
    assert_eq!(lexer.next_char(), Some('\n'));
    let p = lexer.current_position();
    assert_eq!((p.line, p.column, p.offset), (2, 1, 2));
    assert_eq!(lexer.next_char(), Some('b'));
    assert_eq!(lexer.next_char(), None);
}

#[test]
fn consume_until_skips_through_pattern() {
    let mut lexer = Lexer::new("abc;def");
    lexer.consume_until(';');
    let token = lexer.next_token().unwrap();
    assert_eq!(token.kind, TokenType::Identifier);
    assert_eq!(token.lexeme, "def");

    let mut lexer = Lexer::new("abc");
    lexer.consume_until(';');
    assert_eq!(lexer.next_token().unwrap().kind, TokenType::EndOfInput);
}
