use bhascode::Hints;
use bhascode::Lexer;
use bhascode::Token;
use bhascode::TokenType;

/// Collects every semantic token (no-op markers filtered out) until the
/// end-of-input token is produced; panics on a lexical error.
fn collect_tokens(lexer: &mut Lexer) -> Vec<Token> {
    let mut tokens: Vec<Token> = Vec::new();
    loop {
        let token = lexer.next_token().unwrap();
        if matches!(token.kind, TokenType::EndOfInput) {
            break;
        }
        if !matches!(token.kind, TokenType::NoOp) {
            tokens.push(token);
        }
    }
    tokens
}

#[test]
fn test_lexer_single_token() {
    let mut lexer_int = Lexer::new("123");
    let token = lexer_int.next_token().unwrap();
    assert_eq!(token.kind, TokenType::Numeric { hint: Hints::IntegerValue });
    assert_eq!(token.lexeme, "123");

    let mut lexer_float = Lexer::new("123.456");
    let token = lexer_float.next_token().unwrap();
    assert_eq!(token.kind, TokenType::Numeric { hint: Hints::FloatingPointValue });
    assert_eq!(token.lexeme, "123.456");

    let mut lexer_operator = Lexer::new("+");
    let token = lexer_operator.next_token().unwrap();
    assert_eq!(token.kind, TokenType::Operator);
    assert_eq!(token.lexeme, "+");

    let mut lexer_brace = Lexer::new("(){}[]");
    for expected in ["(", ")", "{", "}", "[", "]"] {
        let token = lexer_brace.next_token().unwrap();
        assert!(matches!(token.kind, TokenType::Punctuation { .. }));
        assert_eq!(token.lexeme, expected);
    }

    let mut lexer_identifier = Lexer::new("abc");
    let token = lexer_identifier.next_token().unwrap();
    assert_eq!(token.kind, TokenType::Identifier);
    assert_eq!(token.lexeme, "abc");
}

#[test]
fn test_lexer_multiple_tokens() {
    let mut lexer = Lexer::new("int x = 10 + 20");
    let expected = [
        (TokenType::Keyword, "int"),
        (TokenType::Identifier, "x"),
        (TokenType::Operator, "="),
        (TokenType::Numeric { hint: Hints::IntegerValue }, "10"),
        (TokenType::Operator, "+"),
        (TokenType::Numeric { hint: Hints::IntegerValue }, "20"),
    ];
    for (kind, lexeme) in expected {
        let token = lexer.next_token().unwrap();
        assert_eq!(token.kind, kind);
        assert_eq!(token.lexeme, lexeme);
    }
    assert_eq!(lexer.next_token().unwrap().kind, TokenType::EndOfInput);
}

#[test]
fn test_lexer_invalid_token() {
    let mut lexer_invalid_ident = Lexer::new("int$$x = 10 + 20");
    // The identifier scan stops cleanly at the `$`; the error comes from
    // the dispatch on `$` itself, which no rule recognizes.
    assert_eq!(lexer_invalid_ident.next_token().unwrap().kind, TokenType::Keyword);
    assert!(lexer_invalid_ident.next_token().is_err());

    let mut lexer_invalid_brace = Lexer::new("{}[])]}");
    // Skip the first 4 tokens because they are valid.
    for _ in 0..4 {
        assert!(lexer_invalid_brace.next_token().is_ok());
    }
    assert!(lexer_invalid_brace.next_token().is_err());
}

#[test]
fn test_lexer_peek() {
    let mut lexer = Lexer::new("int x = 10 + 20");
    assert_eq!(lexer.peek().unwrap().unwrap().kind, TokenType::Keyword);
    assert_eq!(lexer.peek().unwrap().unwrap().kind, TokenType::Keyword);
    assert_eq!(lexer.next_token().unwrap().kind, TokenType::Keyword);
    assert_eq!(lexer.peek().unwrap().unwrap().kind, TokenType::Identifier);
    assert_eq!(lexer.next_token().unwrap().kind, TokenType::Identifier);
    assert_eq!(lexer.peek().unwrap().unwrap().kind, TokenType::Operator);
    assert_eq!(lexer.next_token().unwrap().kind, TokenType::Operator);
    assert_eq!(
        lexer.peek().unwrap().unwrap().kind,
        TokenType::Numeric { hint: Hints::IntegerValue }
    );
    assert_eq!(
        lexer.next_token().unwrap().kind,
        TokenType::Numeric { hint: Hints::IntegerValue }
    );
    assert_eq!(lexer.peek().unwrap().unwrap().kind, TokenType::Operator);
    assert_eq!(lexer.next_token().unwrap().kind, TokenType::Operator);
    assert_eq!(
        lexer.peek().unwrap().unwrap().kind,
        TokenType::Numeric { hint: Hints::IntegerValue }
    );
    assert_eq!(
        lexer.next_token().unwrap().kind,
        TokenType::Numeric { hint: Hints::IntegerValue }
    );
    assert!(lexer.peek().is_none());
    assert_eq!(lexer.next_token().unwrap().kind, TokenType::EndOfInput);
}

#[test]
fn test_lexer_eof() {
    let mut lexer = Lexer::new("");
    assert_eq!(lexer.next_token().unwrap().kind, TokenType::EndOfInput);
}

#[test]
fn test_lexer_eof_peek() {
    let mut lexer = Lexer::new("");
    assert!(lexer.peek().is_none());
}

#[test]
fn test_lexer_eof_next() {
    let mut lexer = Lexer::new("");
    assert_eq!(lexer.next_token().unwrap().kind, TokenType::EndOfInput);
}

#[test]
fn test_lexer_eof_with_whitespace() {
    let mut lexer = Lexer::new(" ");
    assert_eq!(lexer.next_token().unwrap().kind, TokenType::EndOfInput);
}

#[test]
fn test_lexer_comments() {
    let mut lexer_single_line = Lexer::new("# This is a single-line comment\nint x = 5");
    let tokens = collect_tokens(&mut lexer_single_line);
    assert_eq!(tokens.len(), 4);

    let mut lexer_multi_line = Lexer::new("#- This is a multi-line comment\n int x = 5 -#");
    let tokens = collect_tokens(&mut lexer_multi_line);
    assert_eq!(tokens.len(), 0);

    let mut lexer_multi_line_with_tokens =
        Lexer::new("#- This is a multi-line comment\n int x = 5 -# int y = 10");
    let tokens = collect_tokens(&mut lexer_multi_line_with_tokens);
    assert_eq!(tokens.len(), 4);
}
