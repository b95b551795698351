//! The token model: kinds, lexemes, positions, and the lexical error type.

use vstd::prelude::*;

verus! {

/// Where a token starts in the source text: 1-based line and column, and the
/// 0-based offset in codepoints.
#[derive(Debug, Clone, Copy, PartialEq, Eq, Structural)]
pub struct Position {
    pub line: usize,
    pub column: usize,
    pub offset: usize,
}

/// Whether a bracket-family symbol opens or closes a nesting level, together
/// with the nesting-depth identifier for its symbol family.  An opener is
/// tagged with the number of same-family levels already open; a closer with
/// the number of same-family levels that remain open after it.
#[derive(Debug, Clone, Copy, PartialEq, Eq, Structural)]
pub enum PunctuationKind {
    Open(usize),
    Close(usize),
}

/// Classifies a numeric literal as integer or floating point or, when a
/// numeric or character literal is rejected, carries the rejection reason.
#[derive(Debug, Clone, Copy, PartialEq, Eq, Structural)]
pub enum Hints {
    IntegerValue,
    FloatingPointValue,
    ExtraneousSymbol,
    MissingExpectedSymbol,
    MalformedTrailingText,
    EmptyCharLiteral,
}

/// The kind of a token.  The text a token stands for lives in the `lexeme`
/// field of [`Token`]; for string and character literals the lexeme is the
/// literal's content with escaping backslashes removed and without the
/// surrounding quotes.
#[derive(Debug, Clone, Copy, PartialEq, Eq, Structural)]
pub enum TokenType {
    /// The end of the token stream; produced forever once input is exhausted.
    EndOfInput,
    /// A bracket-family symbol with its open/close nesting information.
    Punctuation { raw: char, kind: PunctuationKind },
    /// A one- or two-character operator.
    Operator,
    /// A name that is not in the keyword table.
    Identifier,
    /// A name that is in the keyword table.
    Keyword,
    /// A double-quoted string literal.
    StringLiteral,
    /// A single-quoted character literal.
    CharLiteral,
    /// A numeric literal, classified as integer or floating point.
    Numeric { hint: Hints },
    /// A skipped comment: not a semantic token, not an error either.
    NoOp,
    /// Reserved for callers that need a placeholder kind; the scanner itself
    /// reports unrecognized characters as [`LexerError::UnknownSymbol`].
    Unknown,
}

/// One token: its kind, the text it stands for, and where it starts.
#[derive(Debug, Clone, PartialEq, Eq)]
pub struct Token {
    pub kind: TokenType,
    pub lexeme: String,
    pub position: Position,
}

impl Token {
    /// Builds a token from its parts.
    pub fn new(kind: TokenType, lexeme: String, position: Position) -> (t: Token)
        ensures
            t.kind == kind,
            t.lexeme == lexeme,
            t.position == position,
    {
        Token { kind, lexeme, position }
    }
}

/// A lexical failure, returned as a value to the caller; the scanner never
/// aborts.  Each variant carries the text accumulated up to the failure.
#[derive(Debug, Clone, PartialEq, Eq)]
pub enum LexerError {
    /// A character no dispatch rule recognizes.
    UnknownSymbol { symbol: char },
    /// A closing bracket whose matching opener is not the innermost open one.
    MisbalancedSymbol { symbol: char, open: char },
    /// A rejected numeric literal: the partially accumulated text and why.
    NumericLiteralError { raw: String, hint: Hints },
    /// A rejected character literal: empty, or more than one character.
    CharLiteralError { raw: String, hint: Hints },
    /// A string, character literal or block comment that reached the end of
    /// input (or, for a string literal, a raw newline) before its closing
    /// delimiter.  `kind` is the token kind that was being scanned.
    UnterminatedLiteral { kind: TokenType, partial: String },
}

/// One more than `x`, except at the top of the `usize` range, where it stays
/// put.  Line and column counters advance with this, which keeps position
/// tracking total for inputs of any length.
pub open spec fn bump(x: usize) -> usize {
    if x < usize::MAX {
        (x + 1) as usize
    } else {
        x
    }
}

/// The 1-based line number after consuming the first `i` characters of `s`.
pub open spec fn line_at(s: Seq<char>, i: int) -> usize
    decreases i when 0 <= i
{
    if i <= 0 {
        1
    } else if s[i - 1] == '\n' {
        bump(line_at(s, i - 1))
    } else {
        line_at(s, i - 1)
    }
}

/// The 1-based column after consuming the first `i` characters of `s`: a
/// newline resets it to 1, every other character advances it.
pub open spec fn col_at(s: Seq<char>, i: int) -> usize
    decreases i when 0 <= i
{
    if i <= 0 {
        1
    } else if s[i - 1] == '\n' {
        1
    } else {
        bump(col_at(s, i - 1))
    }
}

/// The full position after consuming the first `i` characters of `s`.
pub open spec fn pos_at(s: Seq<char>, i: int) -> Position
    recommends
        0 <= i <= s.len(),
{
    Position { line: line_at(s, i), column: col_at(s, i), offset: i as usize }
}

} // verus!
