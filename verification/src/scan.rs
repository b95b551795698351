//! The mathematical model of one scanning step.
//!
//! Every function here is specification-only: it states, over the source
//! text as a `Seq<char>`, which characters each sub-scanner consumes and
//! what it yields.  The executable scanner in [`crate::lexer`] is proved to
//! return exactly what this model says.

use vstd::prelude::*;

use crate::chars::is_alpha_char;
use crate::chars::is_close_char;
use crate::chars::is_digit_char;
use crate::chars::is_ident_char;
use crate::chars::is_ident_start_char;
use crate::chars::is_keyword_text;
use crate::chars::is_open_char;
use crate::chars::is_pair_operator;
use crate::chars::is_single_operator;
use crate::chars::is_ws_char;
use crate::chars::opener_for;
use crate::token::col_at;
use crate::token::line_at;
use crate::token::pos_at;
use crate::token::Hints;
use crate::token::LexerError;
use crate::token::Position;
use crate::token::PunctuationKind;
use crate::token::Token;
use crate::token::TokenType;

verus! {

/// What a successful scanning step yields, before a position is attached:
/// the token's kind and the text it stands for.
pub struct TokenModel {
    pub kind: TokenType,
    pub lexeme: Seq<char>,
}

/// What a failed scanning step yields; mirrors
/// [`crate::token::LexerError`] with the accumulated text as a sequence.
pub enum ErrorModel {
    Unknown { symbol: char },
    Misbalanced { symbol: char, open: char },
    Numeric { raw: Seq<char>, hint: Hints },
    CharLit { raw: Seq<char>, hint: Hints },
    Unterminated { kind: TokenType, partial: Seq<char> },
}

/// One full step of the token driver: its outcome, the cursor after it, and
/// the stack of open brackets after it.
pub struct StepModel {
    pub res: Result<TokenModel, ErrorModel>,
    pub end: int,
    pub opens: Seq<char>,
}

/// The cursor after skipping whitespace from `i`: the first index at or
/// after `i` holding a non-whitespace character, or the end of the text.
pub open spec fn skip_ws(s: Seq<char>, i: int) -> int
    decreases s.len() - i when 0 <= i <= s.len()
{
    if i < s.len() && is_ws_char(s[i]) {
        skip_ws(s, i + 1)
    } else {
        i
    }
}

/// The cursor after an identifier scan entered at `i`: the first index at or
/// after `i` whose character cannot continue an identifier.  The terminator
/// is not consumed; the end of input is a valid terminator.
pub open spec fn ident_end(s: Seq<char>, i: int) -> int
    decreases s.len() - i when 0 <= i <= s.len()
{
    if i < s.len() && is_ident_char(s[i]) {
        ident_end(s, i + 1)
    } else {
        i
    }
}

/// The classification a finished numeric literal receives: floating point
/// as soon as a decimal point or an exponent marker was seen.
pub open spec fn numeric_hint(seen_dot: bool, seen_exp: bool) -> Hints {
    if seen_dot || seen_exp {
        Hints::FloatingPointValue
    } else {
        Hints::IntegerValue
    }
}

/// The outcome of the numeric sub-scanner: whether the literal is accepted,
/// the accumulated raw text, its classification or rejection reason, and the
/// cursor afterwards.
pub struct NumModel {
    pub ok: bool,
    pub raw: Seq<char>,
    pub hint: Hints,
    pub end: int,
}

/// The numeric sub-scanner, resumed at `i` with the text accumulated so far
/// and whether a decimal point or exponent marker was already seen.
///
/// A second decimal point is consumed and rejected as an extraneous symbol;
/// a trailing alphabetic character is recorded in the raw text but not
/// consumed and rejects the literal as malformed; any other non-digit ends
/// the literal, so a bare trailing decimal point (as in `1.`) is accepted.
pub open spec fn num_scan(s: Seq<char>, i: int, raw: Seq<char>, seen_dot: bool, seen_exp: bool) -> NumModel
    decreases s.len() - i, 0int when 0 <= i <= s.len()
{
    if i >= s.len() {
        NumModel { ok: true, raw, hint: numeric_hint(seen_dot, seen_exp), end: i }
    } else {
        let c = s[i];
        if c == '.' && seen_dot {
            NumModel { ok: false, raw: raw.push(c), hint: Hints::ExtraneousSymbol, end: i + 1 }
        } else if c == '.' && !seen_exp {
            num_scan(s, i + 1, raw.push(c), true, seen_exp)
        } else if (c == 'e' || c == 'E') && !seen_exp {
            exp_scan(s, i + 1, raw.push(c), seen_dot)
        } else if is_digit_char(c) {
            num_scan(s, i + 1, raw.push(c), seen_dot, seen_exp)
        } else if is_alpha_char(c) {
            NumModel { ok: false, raw: raw.push(c), hint: Hints::MalformedTrailingText, end: i }
        } else {
            NumModel { ok: true, raw, hint: numeric_hint(seen_dot, seen_exp), end: i }
        }
    }
}

/// The numeric sub-scanner just after an exponent marker: an optional sign
/// is consumed, then at least one digit is owed.  Whitespace or the end of
/// input there leaves the literal missing its expected exponent digits; any
/// other non-digit is consumed and rejected as extraneous.
pub open spec fn exp_scan(s: Seq<char>, i: int, raw: Seq<char>, seen_dot: bool) -> NumModel
    decreases s.len() - i, 1int when 0 <= i <= s.len()
{
    let j = if i < s.len() && (s[i] == '+' || s[i] == '-') {
        i + 1
    } else {
        i
    };
    let raw2 = if i < s.len() && (s[i] == '+' || s[i] == '-') {
        raw.push(s[i])
    } else {
        raw
    };
    if j >= s.len() {
        NumModel { ok: false, raw: raw2, hint: Hints::MissingExpectedSymbol, end: j }
    } else if is_ws_char(s[j]) {
        NumModel { ok: false, raw: raw2, hint: Hints::MissingExpectedSymbol, end: j }
    } else if !is_digit_char(s[j]) {
        NumModel { ok: false, raw: raw2.push(s[j]), hint: Hints::ExtraneousSymbol, end: j + 1 }
    } else {
        num_scan(s, j, raw2, seen_dot, true)
    }
}

/// The outcome of the string or character sub-scanner: whether the closing
/// delimiter was found, the content with escaping backslashes removed, and
/// the cursor afterwards.
pub struct LiteralModel {
    pub ok: bool,
    pub content: Seq<char>,
    pub end: int,
}

/// The string sub-scanner, entered just after the opening quote.  A
/// backslash sets an escape flag and is not kept; the next character is
/// kept literally whatever it is.  An unescaped quote closes the literal; a
/// raw newline or the end of input leaves it unterminated.
pub open spec fn string_scan(s: Seq<char>, i: int, buf: Seq<char>, escaped: bool) -> LiteralModel
    decreases s.len() - i when 0 <= i <= s.len()
{
    if i >= s.len() {
        LiteralModel { ok: false, content: buf, end: i }
    } else {
        let c = s[i];
        if escaped {
            string_scan(s, i + 1, buf.push(c), false)
        } else if c == '"' {
            LiteralModel { ok: true, content: buf, end: i + 1 }
        } else if c == '\\' {
            string_scan(s, i + 1, buf, true)
        } else if c == '\n' {
            LiteralModel { ok: false, content: buf, end: i + 1 }
        } else {
            string_scan(s, i + 1, buf.push(c), false)
        }
    }
}

/// The character-literal sub-scanner, entered just after the opening single
/// quote: the same escaping as strings, closed by an unescaped single
/// quote.  How many characters the content holds is judged afterwards.
pub open spec fn char_scan(s: Seq<char>, i: int, buf: Seq<char>, escaped: bool) -> LiteralModel
    decreases s.len() - i when 0 <= i <= s.len()
{
    if i >= s.len() {
        LiteralModel { ok: false, content: buf, end: i }
    } else {
        let c = s[i];
        if escaped {
            char_scan(s, i + 1, buf.push(c), false)
        } else if c == '\'' {
            LiteralModel { ok: true, content: buf, end: i + 1 }
        } else if c == '\\' {
            char_scan(s, i + 1, buf, true)
        } else {
            char_scan(s, i + 1, buf.push(c), false)
        }
    }
}

/// The cursor after a single-line comment entered at `i`: just past the next
/// newline, or the end of input.
pub open spec fn line_comment_end(s: Seq<char>, i: int) -> int
    decreases s.len() - i when 0 <= i <= s.len()
{
    if i >= s.len() {
        i
    } else if s[i] == '\n' {
        i + 1
    } else {
        line_comment_end(s, i + 1)
    }
}

/// The outcome of a block-comment scan entered at `i` (just after the `#-`
/// opener): whether the closing `-#` was found, and the cursor afterwards.
pub struct BlockModel {
    pub ok: bool,
    pub end: int,
}

/// The block-comment sub-scanner: consumes up to and including the first
/// `-#`; reaching the end of input first leaves the comment unterminated.
pub open spec fn block_comment_scan(s: Seq<char>, i: int) -> BlockModel
    decreases s.len() - i when 0 <= i <= s.len()
{
    if i >= s.len() {
        BlockModel { ok: false, end: i }
    } else if s[i] == '-' && i + 1 < s.len() && s[i + 1] == '#' {
        BlockModel { ok: true, end: i + 2 }
    } else {
        block_comment_scan(s, i + 1)
    }
}

/// How many of the first `n` symbols on the bracket stack equal `c`.
pub open spec fn count_in(opens: Seq<char>, c: char, n: int) -> nat
    decreases n when 0 <= n <= opens.len()
{
    if n <= 0 {
        0
    } else {
        count_in(opens, c, n - 1) + if opens[n - 1] == c {
            1nat
        } else {
            0nat
        }
    }
}

/// How many symbols on the bracket stack equal `c`: the nesting depth the
/// next opened `c` receives.
pub open spec fn count_open(opens: Seq<char>, c: char) -> nat {
    count_in(opens, c, opens.len() as int)
}

/// One step of the token driver once whitespace is skipped and the character
/// at `start` is known not to be whitespace: which sub-scanner runs, what it
/// yields, where the cursor lands, and the bracket stack afterwards.
///
/// Dispatch order: brackets, identifiers and keywords, numeric literals,
/// string and character literals, comments (`#` to the end of the line, or
/// `#-` to the matching `-#`), then the operator table — the two-character
/// form is tried before the single-character form — and anything left is an
/// unknown symbol.
pub open spec fn dispatch_model(s: Seq<char>, start: int, opens: Seq<char>) -> StepModel
    recommends
        0 <= start < s.len(),
{
    let c = s[start];
    if is_open_char(c) {
        StepModel {
            res: Ok(
                TokenModel {
                    kind: TokenType::Punctuation {
                        raw: c,
                        kind: PunctuationKind::Open(count_open(opens, c) as usize),
                    },
                    lexeme: seq![c],
                },
            ),
            end: start + 1,
            opens: opens.push(c),
        }
    } else if is_close_char(c) {
        let o = opener_for(c);
        if opens.len() > 0 && opens.last() == o {
            StepModel {
                res: Ok(
                    TokenModel {
                        kind: TokenType::Punctuation {
                            raw: c,
                            kind: PunctuationKind::Close((count_open(opens, o) - 1) as usize),
                        },
                        lexeme: seq![c],
                    },
                ),
                end: start + 1,
                opens: opens.drop_last(),
            }
        } else {
            StepModel {
                res: Err(ErrorModel::Misbalanced { symbol: c, open: o }),
                end: start + 1,
                opens,
            }
        }
    } else if is_ident_start_char(c) {
        let e = ident_end(s, start + 1);
        let text = s.subrange(start, e);
        StepModel {
            res: Ok(
                TokenModel {
                    kind: if is_keyword_text(text) {
                        TokenType::Keyword
                    } else {
                        TokenType::Identifier
                    },
                    lexeme: text,
                },
            ),
            end: e,
            opens,
        }
    } else if is_digit_char(c) {
        let m = num_scan(s, start + 1, seq![c], false, false);
        StepModel {
            res: if m.ok {
                Ok(TokenModel { kind: TokenType::Numeric { hint: m.hint }, lexeme: m.raw })
            } else {
                Err(ErrorModel::Numeric { raw: m.raw, hint: m.hint })
            },
            end: m.end,
            opens,
        }
    } else if c == '"' {
        let m = string_scan(s, start + 1, Seq::empty(), false);
        StepModel {
            res: if m.ok {
                Ok(TokenModel { kind: TokenType::StringLiteral, lexeme: m.content })
            } else {
                Err(
                    ErrorModel::Unterminated {
                        kind: TokenType::StringLiteral,
                        partial: m.content,
                    },
                )
            },
            end: m.end,
            opens,
        }
    } else if c == '\'' {
        let m = char_scan(s, start + 1, Seq::empty(), false);
        StepModel {
            res: if !m.ok {
                Err(ErrorModel::Unterminated { kind: TokenType::CharLiteral, partial: m.content })
            } else if m.content.len() == 0 {
                Err(ErrorModel::CharLit { raw: m.content, hint: Hints::EmptyCharLiteral })
            } else if m.content.len() > 1 {
                Err(ErrorModel::CharLit { raw: m.content, hint: Hints::ExtraneousSymbol })
            } else {
                Ok(TokenModel { kind: TokenType::CharLiteral, lexeme: m.content })
            },
            end: m.end,
            opens,
        }
    } else if c == '#' {
        if start + 1 < s.len() && s[start + 1] == '-' {
            let m = block_comment_scan(s, start + 2);
            StepModel {
                res: if m.ok {
                    Ok(TokenModel { kind: TokenType::NoOp, lexeme: Seq::empty() })
                } else {
                    Err(
                        ErrorModel::Unterminated {
                            kind: TokenType::NoOp,
                            partial: s.subrange(start + 2, s.len() as int),
                        },
                    )
                },
                end: m.end,
                opens,
            }
        } else {
            StepModel {
                res: Ok(TokenModel { kind: TokenType::NoOp, lexeme: Seq::empty() }),
                end: line_comment_end(s, start + 1),
                opens,
            }
        }
    } else if start + 1 < s.len() && is_pair_operator(c, s[start + 1]) {
        StepModel {
            res: Ok(TokenModel { kind: TokenType::Operator, lexeme: seq![c, s[start + 1]] }),
            end: start + 2,
            opens,
        }
    } else if is_single_operator(c) {
        StepModel {
            res: Ok(TokenModel { kind: TokenType::Operator, lexeme: seq![c] }),
            end: start + 1,
            opens,
        }
    } else {
        StepModel { res: Err(ErrorModel::Unknown { symbol: c }), end: start + 1, opens }
    }
}

/// One full call of the token driver from cursor `pos`: skip whitespace,
/// then produce the end-of-input token forever once the text is exhausted,
/// or dispatch on the first real character.
pub open spec fn next_token_model(s: Seq<char>, pos: int, opens: Seq<char>) -> StepModel
    recommends
        0 <= pos <= s.len(),
{
    let start = skip_ws(s, pos);
    if start >= s.len() {
        StepModel {
            res: Ok(TokenModel { kind: TokenType::EndOfInput, lexeme: Seq::empty() }),
            end: s.len() as int,
            opens,
        }
    } else {
        dispatch_model(s, start, opens)
    }
}

/// The cursor after consuming characters up to and including the first
/// occurrence of `pattern` at or after `i`, or the whole rest of the text if
/// `pattern` does not occur again.
pub open spec fn consume_until_end(s: Seq<char>, i: int, pattern: char) -> int
    decreases s.len() - i when 0 <= i <= s.len()
{
    if i >= s.len() {
        i
    } else if s[i] == pattern {
        i + 1
    } else {
        consume_until_end(s, i + 1, pattern)
    }
}

/// Whether an executable token agrees with the model: same kind, the same
/// text viewed as a sequence, and the given start position.
pub open spec fn token_matches(t: Token, kind: TokenType, lexeme: Seq<char>, position: Position) -> bool {
    t.kind == kind && t.lexeme@ == lexeme && t.position == position
}

/// Whether an executable lexical error agrees with the model, field by
/// field, with each accumulated text compared as a sequence.
pub open spec fn err_matches(e: LexerError, m: ErrorModel) -> bool {
    match (e, m) {
        (
            LexerError::UnknownSymbol { symbol },
            ErrorModel::Unknown { symbol: ms },
        ) => symbol == ms,
        (
            LexerError::MisbalancedSymbol { symbol, open },
            ErrorModel::Misbalanced { symbol: ms, open: mo },
        ) => symbol == ms && open == mo,
        (
            LexerError::NumericLiteralError { raw, hint },
            ErrorModel::Numeric { raw: mr, hint: mh },
        ) => raw@ == mr && hint == mh,
        (
            LexerError::CharLiteralError { raw, hint },
            ErrorModel::CharLit { raw: mr, hint: mh },
        ) => raw@ == mr && hint == mh,
        (
            LexerError::UnterminatedLiteral { kind, partial },
            ErrorModel::Unterminated { kind: mk, partial: mp },
        ) => kind == mk && partial@ == mp,
        _ => false,
    }
}

/// Whether the outcome of an executable scanning step agrees with the
/// model's outcome, the token's position being `position`.
pub open spec fn result_matches(
    r: Result<Token, LexerError>,
    m: Result<TokenModel, ErrorModel>,
    position: Position,
) -> bool {
    match (r, m) {
        (Ok(t), Ok(tm)) => token_matches(t, tm.kind, tm.lexeme, position),
        (Err(e), Err(em)) => err_matches(e, em),
        _ => false,
    }
}

/// What one driven step leaves for the caller that walks the whole text:
/// a semantic token with its position, or a lexical fault with the line
/// and column the scanner stood at right after it.
pub enum ItemModel {
    Tok { kind: TokenType, lexeme: Seq<char>, position: Position },
    Fault { err: ErrorModel, line: usize, column: usize },
}

/// Every item the driver yields from cursor `pos` to the end of the text,
/// in order: one per token or fault, with no-op markers and the final
/// end-of-input token left out.  Faults do not stop the walk.
pub open spec fn drive(s: Seq<char>, pos: int, opens: Seq<char>) -> Seq<ItemModel>
    decreases s.len() - pos
        when 0 <= pos <= s.len()
        via drive_decreases
{
    if skip_ws(s, pos) >= s.len() {
        Seq::empty()
    } else {
        let m = next_token_model(s, pos, opens);
        let rest = drive(s, m.end, m.opens);
        match m.res {
            Ok(tm) => if tm.kind is NoOp {
                rest
            } else {
                seq![
                    ItemModel::Tok {
                        kind: tm.kind,
                        lexeme: tm.lexeme,
                        position: pos_at(s, skip_ws(s, pos)),
                    },
                ] + rest
            },
            Err(em) => seq![
                ItemModel::Fault { err: em, line: line_at(s, m.end), column: col_at(s, m.end) },
            ] + rest,
        }
    }
}

#[via_fn]
proof fn drive_decreases(s: Seq<char>, pos: int, opens: Seq<char>) {
    lemma_next_token_progress(s, pos, opens);
}

/// Skipping whitespace never moves the cursor backwards or past the end.
pub proof fn lemma_skip_ws_bounds(s: Seq<char>, i: int)
    requires
        0 <= i <= s.len(),
    ensures
        i <= skip_ws(s, i) <= s.len(),
    decreases s.len() - i,
{
    if i < s.len() && is_ws_char(s[i]) {
        lemma_skip_ws_bounds(s, i + 1);
    }
}

/// The identifier sub-scanner never moves the cursor backwards or past the
/// end.
pub proof fn lemma_ident_end_bounds(s: Seq<char>, i: int)
    requires
        0 <= i <= s.len(),
    ensures
        i <= ident_end(s, i) <= s.len(),
    decreases s.len() - i,
{
    if i < s.len() && is_ident_char(s[i]) {
        lemma_ident_end_bounds(s, i + 1);
    }
}

/// The numeric sub-scanner never moves the cursor backwards or past the end.
pub proof fn lemma_num_scan_bounds(s: Seq<char>, i: int, raw: Seq<char>, seen_dot: bool, seen_exp: bool)
    requires
        0 <= i <= s.len(),
    ensures
        i <= num_scan(s, i, raw, seen_dot, seen_exp).end <= s.len(),
    decreases s.len() - i, 0int,
{
    if i < s.len() {
        let c = s[i];
        if c == '.' && seen_dot {
        } else if c == '.' && !seen_exp {
            lemma_num_scan_bounds(s, i + 1, raw.push(c), true, seen_exp);
        } else if (c == 'e' || c == 'E') && !seen_exp {
            lemma_exp_scan_bounds(s, i + 1, raw.push(c), seen_dot);
        } else if is_digit_char(c) {
            lemma_num_scan_bounds(s, i + 1, raw.push(c), seen_dot, seen_exp);
        }
    }
}

/// The exponent part of the numeric sub-scanner never moves the cursor
/// backwards or past the end.
pub proof fn lemma_exp_scan_bounds(s: Seq<char>, i: int, raw: Seq<char>, seen_dot: bool)
    requires
        0 <= i <= s.len(),
    ensures
        i <= exp_scan(s, i, raw, seen_dot).end <= s.len(),
    decreases s.len() - i, 1int,
{
    let j = if i < s.len() && (s[i] == '+' || s[i] == '-') {
        i + 1
    } else {
        i
    };
    let raw2 = if i < s.len() && (s[i] == '+' || s[i] == '-') {
        raw.push(s[i])
    } else {
        raw
    };
    if j < s.len() && !is_ws_char(s[j]) && is_digit_char(s[j]) {
        lemma_num_scan_bounds(s, j, raw2, seen_dot, true);
    }
}

/// The string sub-scanner moves the cursor forwards and never past the end.
pub proof fn lemma_string_scan_bounds(s: Seq<char>, i: int, buf: Seq<char>, escaped: bool)
    requires
        0 <= i <= s.len(),
    ensures
        i <= string_scan(s, i, buf, escaped).end <= s.len(),
    decreases s.len() - i,
{
    if i < s.len() {
        let c = s[i];
        if escaped {
            lemma_string_scan_bounds(s, i + 1, buf.push(c), false);
        } else if c == '"' {
        } else if c == '\\' {
            lemma_string_scan_bounds(s, i + 1, buf, true);
        } else if c == '\n' {
        } else {
            lemma_string_scan_bounds(s, i + 1, buf.push(c), false);
        }
    }
}

/// The character-literal sub-scanner moves the cursor forwards and never
/// past the end.
pub proof fn lemma_char_scan_bounds(s: Seq<char>, i: int, buf: Seq<char>, escaped: bool)
    requires
        0 <= i <= s.len(),
    ensures
        i <= char_scan(s, i, buf, escaped).end <= s.len(),
    decreases s.len() - i,
{
    if i < s.len() {
        let c = s[i];
        if escaped {
            lemma_char_scan_bounds(s, i + 1, buf.push(c), false);
        } else if c == '\'' {
        } else if c == '\\' {
            lemma_char_scan_bounds(s, i + 1, buf, true);
        } else {
            lemma_char_scan_bounds(s, i + 1, buf.push(c), false);
        }
    }
}

/// The single-line comment skipper moves the cursor forwards and never past
/// the end.
pub proof fn lemma_line_comment_bounds(s: Seq<char>, i: int)
    requires
        0 <= i <= s.len(),
    ensures
        i <= line_comment_end(s, i) <= s.len(),
    decreases s.len() - i,
{
    if i < s.len() && s[i] != '\n' {
        lemma_line_comment_bounds(s, i + 1);
    }
}

/// The block-comment skipper moves the cursor forwards and never past the
/// end.
pub proof fn lemma_block_comment_bounds(s: Seq<char>, i: int)
    requires
        0 <= i <= s.len(),
    ensures
        i <= block_comment_scan(s, i).end <= s.len(),
    decreases s.len() - i,
{
    if i < s.len() && !(s[i] == '-' && i + 1 < s.len() && s[i + 1] == '#') {
        lemma_block_comment_bounds(s, i + 1);
    }
}

/// No symbol occurs on a stack prefix more often than the prefix is long.
pub proof fn lemma_count_in_le(opens: Seq<char>, c: char, n: int)
    requires
        0 <= n <= opens.len(),
    ensures
        count_in(opens, c, n) <= n,
    decreases n,
{
    if n > 0 {
        lemma_count_in_le(opens, c, n - 1);
    }
}

/// Two stacks that agree on their first `n` symbols agree on every count
/// taken over those symbols.
pub proof fn lemma_count_in_agree(a: Seq<char>, b: Seq<char>, c: char, n: int)
    requires
        0 <= n <= a.len(),
        n <= b.len(),
        forall|k: int| 0 <= k < n ==> a[k] == b[k],
    ensures
        count_in(a, c, n) == count_in(b, c, n),
    decreases n,
{
    if n > 0 {
        lemma_count_in_agree(a, b, c, n - 1);
    }
}

/// Every call of the token driver terminates and makes progress: the cursor
/// never runs backwards or past the end; when a real character is pending
/// the cursor strictly advances, so repeated calls reach the end of the text
/// in finitely many steps; and once only whitespace (or nothing) is left,
/// the driver yields the end-of-input token with the cursor parked at the
/// end — hence every later call yields it again, forever.
pub proof fn lemma_next_token_progress(s: Seq<char>, pos: int, opens: Seq<char>)
    requires
        0 <= pos <= s.len(),
    ensures
        pos <= next_token_model(s, pos, opens).end <= s.len(),
        skip_ws(s, pos) < s.len() ==> next_token_model(s, pos, opens).end > pos,
        skip_ws(s, pos) >= s.len() ==> {
            let m = next_token_model(s, pos, opens);
            &&& m.end == s.len()
            &&& m.opens == opens
            &&& m.res matches Ok(t) && t.kind is EndOfInput && t.lexeme.len() == 0
        },
{
    lemma_skip_ws_bounds(s, pos);
    let start = skip_ws(s, pos);
    if start < s.len() {
        let c = s[start];
        if is_open_char(c) || is_close_char(c) {
        } else if is_ident_start_char(c) {
            lemma_ident_end_bounds(s, start + 1);
        } else if is_digit_char(c) {
            lemma_num_scan_bounds(s, start + 1, seq![c], false, false);
        } else if c == '"' {
            lemma_string_scan_bounds(s, start + 1, Seq::empty(), false);
        } else if c == '\'' {
            lemma_char_scan_bounds(s, start + 1, Seq::empty(), false);
        } else if c == '#' {
            if start + 1 < s.len() && s[start + 1] == '-' {
                lemma_block_comment_bounds(s, start + 2);
            } else {
                lemma_line_comment_bounds(s, start + 1);
            }
        }
    }
}

} // verus!
