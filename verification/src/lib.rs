//! A lexical scanner for a small programming-language front end.
//!
//! The scanner turns a source text into a stream of typed, position-tagged
//! tokens: punctuation with nesting depths, operators, identifiers and
//! keywords, string / character / numeric literals, and no-op markers for
//! skipped comments.  Every scanning routine is verified against a
//! mathematical model of the token grammar, stated over the source text as a
//! sequence of characters.

pub mod chars;
pub mod parser;
pub mod lexer;
pub mod scan;
pub mod token;

pub use lexer::Lexer;
pub use parser::Parser;
pub use parser::ParserError;
pub use parser::Terminal;
pub use token::Hints;
pub use token::LexerError;
pub use token::Position;
pub use token::PunctuationKind;
pub use token::Token;
pub use token::TokenType;
