use bhascode::Hints;
use bhascode::Lexer;
use bhascode::LexerError;
use bhascode::Parser;
use bhascode::ParserError;
use bhascode::Position;
use bhascode::Terminal;
use bhascode::Token;
use bhascode::TokenType;

#[test]
fn parse_collects_tokens_in_order() {
    let mut parser = Parser::new("int x = 5");
    assert!(parser.parse().is_some());
    assert_eq!(parser.tokens.len(), 4);
    assert_eq!(parser.errors.len(), 0);
    assert_eq!(parser.tokens[0].kind, TokenType::Keyword);
    assert_eq!(parser.tokens[0].lexeme, "int");
    assert_eq!(parser.tokens[1].kind, TokenType::Identifier);
    assert_eq!(parser.tokens[2].kind, TokenType::Operator);
    assert_eq!(parser.tokens[3].kind, TokenType::Numeric { hint: Hints::IntegerValue });
    assert_eq!(parser.tokens[3].lexeme, "5");
}

#[test]
fn parse_continues_past_errors() {
    let mut parser = Parser::new("$ x $");
    assert!(parser.parse().is_some());
    assert_eq!(parser.tokens.len(), 1);
    assert_eq!(parser.tokens[0].kind, TokenType::Identifier);
    assert_eq!(parser.tokens[0].lexeme, "x");
    assert_eq!(parser.errors.len(), 2);
    assert_eq!(
        parser.errors[0],
        ParserError::Generic {
            error: LexerError::UnknownSymbol { symbol: '$' },
            line: 1,
            column: 2,
        }
    );
    assert_eq!(
        parser.errors[1],
        ParserError::Generic {
            error: LexerError::UnknownSymbol { symbol: '$' },
            line: 1,
            column: 6,
        }
    );
}

#[test]
fn parse_filters_comment_markers() {
    let mut parser = Parser::new("# heading\nint x = 5 #- trailing -#");
    assert!(parser.parse().is_some());
    assert_eq!(parser.tokens.len(), 4);
    assert_eq!(parser.errors.len(), 0);
    assert_eq!(parser.tokens[0].position.line, 2);
}

#[test]
fn parse_empty_source() {
    let mut parser = Parser::new("");
    assert!(parser.parse().is_some());
    assert_eq!(parser.tokens.len(), 0);
    assert_eq!(parser.errors.len(), 0);
}

#[test]
fn token_new_builds_the_parts() {
    let position = Position { line: 3, column: 7, offset: 21 };
    let token = Token::new(TokenType::Identifier, "name".to_string(), position);
    assert_eq!(token.kind, TokenType::Identifier);
    assert_eq!(token.lexeme, "name");
    assert_eq!(token.position, position);
}

#[test]
fn current_position_reports_the_cursor() {
    let mut lexer = Lexer::new("a\nbb");
    let p = lexer.current_position();
    assert_eq!((p.line, p.column, p.offset), (1, 1, 0));
    let _ = lexer.next_token().unwrap();
    let _ = lexer.next_token().unwrap();
    let p = lexer.current_position();
    assert_eq!((p.line, p.column, p.offset), (2, 3, 4));
}

#[test]
fn terminal_symbols_carry_their_data() {
    let t = Terminal::Identifier { raw: "x".to_string() };
    assert_eq!(t, Terminal::Identifier { raw: "x".to_string() });
    assert_ne!(t, Terminal::Int);
    let lit = Terminal::IntLiteral { raw: "5".to_string() };
    assert!(matches!(lit, Terminal::IntLiteral { .. }));
    assert!(matches!(Terminal::Char { c: '=' }, Terminal::Char { c: '=' }));
}
