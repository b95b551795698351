//! The executable scanner: a cursor over the source text, position and
//! bracket-balance tracking, the literal sub-scanners, and the token driver.
//!
//! Every operation is proved to do exactly what the model in
//! [`crate::scan`] says of it.

use vstd::prelude::*;
use vstd::string::StrSliceExecFns;

use crate::chars::alpha_char;
use crate::chars::close_char;
use crate::chars::digit_char;
use crate::chars::ident_char;
use crate::chars::ident_start_char;
use crate::chars::is_close_char;
use crate::chars::open_char;
use crate::chars::opener_for;
use crate::chars::pair_operator;
use crate::chars::single_operator;
use crate::chars::ws_char;
use crate::chars::is_pair_operator;
use crate::chars::is_single_operator;
use crate::chars::is_keyword_text;
use crate::scan::count_in;
use crate::scan::count_open;
use crate::scan::exp_scan;
use crate::scan::ident_end;
use crate::scan::block_comment_scan;
use crate::scan::char_scan;
use crate::scan::consume_until_end;
use crate::scan::dispatch_model;
use crate::scan::err_matches;
use crate::scan::lemma_skip_ws_bounds;
use crate::scan::line_comment_end;
use crate::scan::next_token_model;
use crate::scan::result_matches;
use crate::scan::num_scan;
use crate::scan::BlockModel;
use crate::scan::numeric_hint;
use crate::scan::string_scan;
use crate::scan::LiteralModel;
use crate::scan::NumModel;
use crate::scan::lemma_count_in_agree;
use crate::scan::lemma_count_in_le;
use crate::scan::skip_ws;
use crate::token::bump;
use crate::token::col_at;
use crate::token::line_at;
use crate::token::pos_at;
use crate::token::Hints;
use crate::token::LexerError;
use crate::token::Position;
use crate::token::PunctuationKind;
use crate::token::Token;
use crate::token::TokenType;

verus! {

/// The scanner: owns the decoded source text, the cursor, the line and
/// column counters, and the stack of currently open brackets.
pub struct Lexer {
    input: Vec<char>,
    pos: usize,
    cur_line: usize,
    cur_col: usize,
    balance: Vec<char>,
}

impl Lexer {
    /// The source text being scanned.
    pub closed spec fn src(&self) -> Seq<char> {
        self.input@
    }

    /// The cursor: how many characters have been consumed.
    pub closed spec fn at(&self) -> int {
        self.pos as int
    }

    /// The stack of currently open brackets, innermost last.
    pub closed spec fn opens(&self) -> Seq<char> {
        self.balance@
    }

    /// Well-formedness: the cursor stays within the text and the line and
    /// column counters agree with the consumed prefix.
    pub closed spec fn wf(&self) -> bool {
        &&& self.pos <= self.input@.len()
        &&& self.cur_line == line_at(self.input@, self.pos as int)
        &&& self.cur_col == col_at(self.input@, self.pos as int)
    }

    /// A well-formed scanner's cursor lies within the source text.
    pub proof fn lemma_wf_bounds(&self)
        requires
            self.wf(),
        ensures
            0 <= self.at() <= self.src().len(),
    {
    }

    /// Builds a scanner over `chars`, with the cursor at the start, the
    /// position at line 1 and column 1, and no brackets open.
    pub fn new(chars: &str) -> (lexer: Lexer)
        ensures
            lexer.wf(),
            lexer.src() == chars@,
            lexer.at() == 0,
            lexer.opens() == Seq::<char>::empty(),
    {
        let n = chars.unicode_len();
        let mut input: Vec<char> = Vec::new();
        let mut i: usize = 0;
        while i < n
            invariant
                i <= n,
                n == chars@.len(),
                input@ == chars@.subrange(0, i as int),
            decreases n - i,
        {
            input.push(chars.get_char(i));
            proof {
                assert(input@ =~= chars@.subrange(0, i + 1));
            }
            i = i + 1;
        }
        proof {
            assert(input@ =~= chars@);
        }
        Lexer { input, pos: 0, cur_line: 1, cur_col: 1, balance: Vec::new() }
    }

    /// The current position: 1-based line and column and the codepoint
    /// offset of the next unconsumed character.
    pub fn current_position(&self) -> (p: Position)
        requires
            self.wf(),
        ensures
            p == pos_at(self.src(), self.at()),
    {
        Position { line: self.cur_line, column: self.cur_col, offset: self.pos }
    }

    /// Consumes one character and keeps the line and column counters in
    /// step: a newline moves to the start of the next line, anything else
    /// advances the column.  Returns `None` at the end of input.
    pub fn next_char(&mut self) -> (r: Option<char>)
        requires
            old(self).wf(),
        ensures
            final(self).wf(),
            final(self).src() == old(self).src(),
            final(self).opens() == old(self).opens(),
            old(self).at() < old(self).src().len() ==> r == Some(
                old(self).src()[old(self).at()],
            ) && final(self).at() == old(self).at() + 1,
            old(self).at() >= old(self).src().len() ==> r is None && final(self).at() == old(
                self,
            ).at(),
    {
        if self.pos < self.input.len() {
            let c = self.input[self.pos];
            self.pos = self.pos + 1;
            if c == '\n' {
                self.cur_line = bump_counter(self.cur_line);
                self.cur_col = 1;
            } else {
                self.cur_col = bump_counter(self.cur_col);
            }
            Some(c)
        } else {
            None
        }
    }

    /// The next unconsumed character, without consuming it; `None` at the
    /// end of input.
    fn peek_char(&self) -> (r: Option<char>)
        requires
            self.wf(),
        ensures
            self.at() < self.src().len() ==> r == Some(self.src()[self.at()]),
            self.at() >= self.src().len() ==> r is None,
    {
        if self.pos < self.input.len() {
            Some(self.input[self.pos])
        } else {
            None
        }
    }

    /// Consumes whitespace until a real character (or the end of input) is
    /// pending.
    fn skip_whitespace(&mut self)
        requires
            old(self).wf(),
        ensures
            final(self).wf(),
            final(self).src() == old(self).src(),
            final(self).opens() == old(self).opens(),
            final(self).at() == skip_ws(old(self).src(), old(self).at()),
    {
        let ghost initial = *old(self);
        loop
            invariant
                self.wf(),
                self.src() == initial.src(),
                self.opens() == initial.opens(),
                0 <= self.at() <= self.src().len(),
                skip_ws(initial.src(), initial.at()) == skip_ws(self.src(), self.at()),
            ensures
                self.wf(),
                self.src() == initial.src(),
                self.opens() == initial.opens(),
                self.at() == skip_ws(initial.src(), initial.at()),
            decreases self.src().len() - self.at(),
        {
            match self.peek_char() {
                Some(c) => {
                    if ws_char(c) {
                        let _ = self.next_char();
                    } else {
                        break;
                    }
                },
                None => {
                    break;
                },
            }
        }
    }

    /// Scans the rest of an identifier whose first character `c` was just
    /// consumed: characters are taken while they can continue an
    /// identifier, and the first one that cannot is left unconsumed (the
    /// end of input is a valid terminator).  The finished text lexes as a
    /// keyword when the keyword table holds it, as an identifier otherwise;
    /// this scan never fails.
    fn parse_identifier(&mut self, c: char) -> (r: (TokenType, String))
        requires
            old(self).wf(),
            0 < old(self).at() <= old(self).src().len(),
            old(self).src()[old(self).at() - 1] == c,
        ensures
            final(self).wf(),
            final(self).src() == old(self).src(),
            final(self).opens() == old(self).opens(),
            final(self).at() == ident_end(old(self).src(), old(self).at()),
            ({
                let text = old(self).src().subrange(
                    old(self).at() - 1,
                    ident_end(old(self).src(), old(self).at()),
                );
                &&& r.1@ == text
                &&& r.0 == if is_keyword_text(text) {
                    TokenType::Keyword
                } else {
                    TokenType::Identifier
                }
            }),
    {
        let ghost initial = *old(self);
        let mut buf = String::new();
        push_char(&mut buf, c);
        proof {
            assert(buf@ =~= initial.src().subrange(initial.at() - 1, initial.at()));
        }
        loop
            invariant
                self.wf(),
                self.src() == initial.src(),
                self.opens() == initial.opens(),
                0 < initial.at() <= self.at() <= self.src().len(),
                buf@ == initial.src().subrange(initial.at() - 1, self.at()),
                ident_end(self.src(), initial.at()) == ident_end(self.src(), self.at()),
            ensures
                self.wf(),
                self.src() == initial.src(),
                self.opens() == initial.opens(),
                self.at() == ident_end(initial.src(), initial.at()),
                buf@ == initial.src().subrange(initial.at() - 1, self.at()),
            decreases self.src().len() - self.at(),
        {
            match self.peek_char() {
                Some(n) => {
                    if ident_char(n) {
                        let ghost here = self.at();
                        let _ = self.next_char();
                        push_char(&mut buf, n);
                        proof {
                            assert(initial.src().subrange(initial.at() - 1, here).push(n)
                                =~= initial.src().subrange(initial.at() - 1, here + 1));
                        }
                    } else {
                        break;
                    }
                },
                None => {
                    break;
                },
            }
        }
        if keyword_text(&buf) {
            (TokenType::Keyword, buf)
        } else {
            (TokenType::Identifier, buf)
        }
    }

    /// Scans the rest of a numeric literal whose first digit `c` was just
    /// consumed: digits, at most one decimal point, and an optional
    /// exponent part (`e`/`E`, an optional sign, then digits).  A second
    /// decimal point, a missing exponent digit, or an alphabetic character
    /// trailing the run rejects the literal with the reason and the text
    /// accumulated so far; a bare trailing decimal point is accepted.
    fn parse_number(&mut self, c: char) -> (r: Result<(TokenType, String), LexerError>)
        requires
            old(self).wf(),
            0 < old(self).at() <= old(self).src().len(),
            old(self).src()[old(self).at() - 1] == c,
        ensures
            final(self).wf(),
            final(self).src() == old(self).src(),
            final(self).opens() == old(self).opens(),
            ({
                let m = num_scan(old(self).src(), old(self).at(), seq![c], false, false);
                &&& final(self).at() == m.end
                &&& if m.ok {
                    r matches Ok(p) && p.0 == (TokenType::Numeric { hint: m.hint }) && p.1@
                        == m.raw
                } else {
                    r matches Err(e) && e matches LexerError::NumericLiteralError {
                        raw,
                        hint,
                    } && raw@ == m.raw && hint == m.hint
                }
            }),
    {
        let ghost initial = *old(self);
        let ghost mdl = num_scan(initial.src(), initial.at(), seq![c], false, false);
        let mut raw = String::new();
        push_char(&mut raw, c);
        proof {
            assert(raw@ =~= seq![c]);
        }
        let mut seen_dot = false;
        let mut seen_exp = false;
        loop
            invariant
                initial == *old(self),
                self.wf(),
                self.src() == initial.src(),
                self.opens() == initial.opens(),
                0 < initial.at() <= self.at() <= self.src().len(),
                mdl == num_scan(initial.src(), initial.at(), seq![c], false, false),
                mdl == num_scan(self.src(), self.at(), raw@, seen_dot, seen_exp),
            ensures
                initial == *old(self),
                self.wf(),
                self.src() == initial.src(),
                self.opens() == initial.opens(),
                mdl == num_scan(initial.src(), initial.at(), seq![c], false, false),
                mdl == (NumModel {
                    ok: true,
                    raw: raw@,
                    hint: numeric_hint(seen_dot, seen_exp),
                    end: self.at(),
                }),
            decreases self.src().len() - self.at(),
        {
            let next = self.peek_char();
            if next.is_none() {
                break;
            }
            let n = next.unwrap();
            if n == '.' && seen_dot {
                let _ = self.next_char();
                push_char(&mut raw, n);
                return Err(
                    LexerError::NumericLiteralError { raw, hint: Hints::ExtraneousSymbol },
                );
            } else if n == '.' && !seen_exp {
                let _ = self.next_char();
                push_char(&mut raw, n);
                seen_dot = true;
            } else if (n == 'e' || n == 'E') && !seen_exp {
                let ghost at_marker = self.at();
                let ghost raw_marker = raw@;
                let _ = self.next_char();
                push_char(&mut raw, n);
                proof {
                    assert(mdl == exp_scan(
                        self.src(),
                        at_marker + 1,
                        raw_marker.push(n),
                        seen_dot,
                    ));
                }
                let after_sign = self.peek_char();
                if after_sign.is_some() {
                    let sc = after_sign.unwrap();
                    if sc == '+' || sc == '-' {
                        let _ = self.next_char();
                        push_char(&mut raw, sc);
                    }
                }
                let first_digit = self.peek_char();
                if first_digit.is_none() {
                    return Err(
                        LexerError::NumericLiteralError {
                            raw,
                            hint: Hints::MissingExpectedSymbol,
                        },
                    );
                }
                let d = first_digit.unwrap();
                if ws_char(d) {
                    return Err(
                        LexerError::NumericLiteralError {
                            raw,
                            hint: Hints::MissingExpectedSymbol,
                        },
                    );
                } else if !digit_char(d) {
                    let _ = self.next_char();
                    push_char(&mut raw, d);
                    return Err(
                        LexerError::NumericLiteralError { raw, hint: Hints::ExtraneousSymbol },
                    );
                }
                seen_exp = true;
            } else if digit_char(n) {
                let _ = self.next_char();
                push_char(&mut raw, n);
            } else if alpha_char(n) {
                push_char(&mut raw, n);
                return Err(
                    LexerError::NumericLiteralError { raw, hint: Hints::MalformedTrailingText },
                );
            } else {
                break;
            }
        }
        let hint = if seen_dot || seen_exp {
            Hints::FloatingPointValue
        } else {
            Hints::IntegerValue
        };
        Ok((TokenType::Numeric { hint }, raw))
    }

    /// Scans a string literal, entered just after the opening quote was
    /// consumed.  A backslash marks the next character to be taken
    /// literally and is itself never kept; an unescaped quote closes the
    /// literal.  A raw newline or the end of input leaves the literal
    /// unterminated, carrying the content gathered so far.
    fn parse_string(&mut self) -> (r: Result<(TokenType, String), LexerError>)
        requires
            old(self).wf(),
        ensures
            final(self).wf(),
            final(self).src() == old(self).src(),
            final(self).opens() == old(self).opens(),
            ({
                let m = string_scan(old(self).src(), old(self).at(), Seq::empty(), false);
                &&& final(self).at() == m.end
                &&& if m.ok {
                    r matches Ok(p) && p.0 is StringLiteral && p.1@ == m.content
                } else {
                    r matches Err(e) && e matches LexerError::UnterminatedLiteral {
                        kind,
                        partial,
                    } && kind is StringLiteral && partial@ == m.content
                }
            }),
    {
        let ghost initial = *old(self);
        let ghost mdl = string_scan(initial.src(), initial.at(), Seq::empty(), false);
        let mut buf = String::new();
        let mut escaped = false;
        loop
            invariant_except_break
                mdl == string_scan(self.src(), self.at(), buf@, escaped),
            invariant
                initial == *old(self),
                self.wf(),
                self.src() == initial.src(),
                self.opens() == initial.opens(),
                0 <= initial.at() <= self.at() <= self.src().len(),
                mdl == string_scan(initial.src(), initial.at(), Seq::empty(), false),
            ensures
                initial == *old(self),
                self.wf(),
                self.src() == initial.src(),
                self.opens() == initial.opens(),
                mdl == string_scan(initial.src(), initial.at(), Seq::empty(), false),
                mdl == (LiteralModel { ok: true, content: buf@, end: self.at() }),
            decreases self.src().len() - self.at(),
        {
            match self.next_char() {
                None => {
                    return Err(
                        LexerError::UnterminatedLiteral {
                            kind: TokenType::StringLiteral,
                            partial: buf,
                        },
                    );
                },
                Some(n) => {
                    if escaped {
                        push_char(&mut buf, n);
                        escaped = false;
                    } else if n == '"' {
                        break;
                    } else if n == '\\' {
                        escaped = true;
                    } else if n == '\n' {
                        return Err(
                            LexerError::UnterminatedLiteral {
                                kind: TokenType::StringLiteral,
                                partial: buf,
                            },
                        );
                    } else {
                        push_char(&mut buf, n);
                    }
                },
            }
        }
        Ok((TokenType::StringLiteral, buf))
    }

    /// Scans a character literal, entered just after the opening single
    /// quote was consumed: the same escaping as strings, closed by an
    /// unescaped single quote.  The closed literal must hold exactly one
    /// character — an empty one or a longer one is rejected with the
    /// content as the offending text.
    fn parse_char(&mut self) -> (r: Result<(TokenType, String), LexerError>)
        requires
            old(self).wf(),
        ensures
            final(self).wf(),
            final(self).src() == old(self).src(),
            final(self).opens() == old(self).opens(),
            ({
                let m = char_scan(old(self).src(), old(self).at(), Seq::empty(), false);
                &&& final(self).at() == m.end
                &&& if !m.ok {
                    r matches Err(e) && e matches LexerError::UnterminatedLiteral {
                        kind,
                        partial,
                    } && kind is CharLiteral && partial@ == m.content
                } else if m.content.len() == 0 {
                    r matches Err(e) && e matches LexerError::CharLiteralError {
                        raw,
                        hint,
                    } && raw@ == m.content && hint is EmptyCharLiteral
                } else if m.content.len() > 1 {
                    r matches Err(e) && e matches LexerError::CharLiteralError {
                        raw,
                        hint,
                    } && raw@ == m.content && hint is ExtraneousSymbol
                } else {
                    r matches Ok(p) && p.0 is CharLiteral && p.1@ == m.content
                }
            }),
    {
        let ghost initial = *old(self);
        let ghost mdl = char_scan(initial.src(), initial.at(), Seq::empty(), false);
        let mut buf = String::new();
        let mut escaped = false;
        loop
            invariant_except_break
                mdl == char_scan(self.src(), self.at(), buf@, escaped),
            invariant
                initial == *old(self),
                self.wf(),
                self.src() == initial.src(),
                self.opens() == initial.opens(),
                0 <= initial.at() <= self.at() <= self.src().len(),
                mdl == char_scan(initial.src(), initial.at(), Seq::empty(), false),
            ensures
                initial == *old(self),
                self.wf(),
                self.src() == initial.src(),
                self.opens() == initial.opens(),
                mdl == char_scan(initial.src(), initial.at(), Seq::empty(), false),
                mdl == (LiteralModel { ok: true, content: buf@, end: self.at() }),
            decreases self.src().len() - self.at(),
        {
            match self.next_char() {
                None => {
                    return Err(
                        LexerError::UnterminatedLiteral {
                            kind: TokenType::CharLiteral,
                            partial: buf,
                        },
                    );
                },
                Some(n) => {
                    if escaped {
                        push_char(&mut buf, n);
                        escaped = false;
                    } else if n == '\'' {
                        break;
                    } else if n == '\\' {
                        escaped = true;
                    } else {
                        push_char(&mut buf, n);
                    }
                },
            }
        }
        let len = buf.as_str().unicode_len();
        if len == 0 {
            Err(LexerError::CharLiteralError { raw: buf, hint: Hints::EmptyCharLiteral })
        } else if len > 1 {
            Err(LexerError::CharLiteralError { raw: buf, hint: Hints::ExtraneousSymbol })
        } else {
            Ok((TokenType::CharLiteral, buf))
        }
    }

    /// Skips a comment, entered just after the `#` was consumed.  A `-`
    /// right after the `#` opens a block comment that runs to the first
    /// `-#`; anything else is a single-line comment that runs through the
    /// next newline or the end of input.  A skipped comment yields a no-op
    /// marker with an empty lexeme; a block comment that never closes is
    /// unterminated, carrying its body as the partial text.
    fn lex_comment(&mut self) -> (r: Result<(TokenType, String), LexerError>)
        requires
            old(self).wf(),
        ensures
            final(self).wf(),
            final(self).src() == old(self).src(),
            final(self).opens() == old(self).opens(),
            ({
                let s = old(self).src();
                let i = old(self).at();
                if i < s.len() && s[i] == '-' {
                    let m = block_comment_scan(s, i + 1);
                    &&& final(self).at() == m.end
                    &&& if m.ok {
                        r matches Ok(p) && p.0 is NoOp && p.1@ == Seq::<char>::empty()
                    } else {
                        r matches Err(e) && e matches LexerError::UnterminatedLiteral {
                            kind,
                            partial,
                        } && kind is NoOp && partial@ == s.subrange(i + 1, s.len() as int)
                    }
                } else {
                    &&& final(self).at() == line_comment_end(s, i)
                    &&& r matches Ok(p) && p.0 is NoOp && p.1@ == Seq::<char>::empty()
                }
            }),
    {
        let ghost initial = *old(self);
        let is_block = match self.peek_char() {
            Some(n) => n == '-',
            None => false,
        };
        if is_block {
            let _ = self.next_char();
            let ghost body = initial.at() + 1;
            let ghost mdl = block_comment_scan(initial.src(), body);
            let mut buf = String::new();
            loop
                invariant_except_break
                    mdl == block_comment_scan(self.src(), self.at()),
                    buf@ == initial.src().subrange(body, self.at()),
                invariant
                    initial == *old(self),
                    self.wf(),
                    self.src() == initial.src(),
                    self.opens() == initial.opens(),
                    0 <= body <= self.at() <= self.src().len(),
                    body == initial.at() + 1,
                    initial.at() < initial.src().len(),
                    initial.src()[initial.at()] == '-',
                    mdl == block_comment_scan(initial.src(), body),
                ensures
                    initial == *old(self),
                    self.wf(),
                    self.src() == initial.src(),
                    self.opens() == initial.opens(),
                    mdl == block_comment_scan(initial.src(), body),
                    mdl == (BlockModel { ok: true, end: self.at() }),
                decreases self.src().len() - self.at(),
            {
                let ghost here = self.at();
                match self.next_char() {
                    None => {
                        return Err(
                            LexerError::UnterminatedLiteral { kind: TokenType::NoOp, partial: buf },
                        );
                    },
                    Some(n) => {
                        if n == '-' {
                            let hash = match self.peek_char() {
                                Some(h) => h == '#',
                                None => false,
                            };
                            if hash {
                                let _ = self.next_char();
                                break;
                            }
                        }
                        push_char(&mut buf, n);
                        proof {
                            assert(initial.src().subrange(body, here).push(n) =~= initial.src()
                                .subrange(body, here + 1));
                        }
                    },
                }
            }
            Ok((TokenType::NoOp, String::new()))
        } else {
            let ghost mdl = line_comment_end(initial.src(), initial.at());
            loop
                invariant_except_break
                    mdl == line_comment_end(self.src(), self.at()),
                invariant
                    initial == *old(self),
                    self.wf(),
                    self.src() == initial.src(),
                    self.opens() == initial.opens(),
                    0 <= initial.at() <= self.at() <= self.src().len(),
                    mdl == line_comment_end(initial.src(), initial.at()),
                ensures
                    initial == *old(self),
                    self.wf(),
                    self.src() == initial.src(),
                    self.opens() == initial.opens(),
                    self.at() == mdl,
                decreases self.src().len() - self.at(),
            {
                match self.next_char() {
                    None => {
                        break;
                    },
                    Some(n) => {
                        if n == '\n' {
                            break;
                        }
                    },
                }
            }
            Ok((TokenType::NoOp, String::new()))
        }
    }

    /// Scans an operator, dispatched on a consumed character `c` that no
    /// other rule claimed.  The two-character combination of `c` and the
    /// pending character is tried against the operator table first; then
    /// `c` alone; a character in neither table is an unknown symbol.
    fn lex_operator(&mut self, c: char) -> (r: Result<(TokenType, String), LexerError>)
        requires
            old(self).wf(),
        ensures
            final(self).wf(),
            final(self).src() == old(self).src(),
            final(self).opens() == old(self).opens(),
            ({
                let s = old(self).src();
                let i = old(self).at();
                if i < s.len() && is_pair_operator(c, s[i]) {
                    &&& final(self).at() == i + 1
                    &&& r matches Ok(p) && p.0 is Operator && p.1@ == seq![c, s[i]]
                } else if is_single_operator(c) {
                    &&& final(self).at() == i
                    &&& r matches Ok(p) && p.0 is Operator && p.1@ == seq![c]
                } else {
                    &&& final(self).at() == i
                    &&& r matches Err(e) && e matches LexerError::UnknownSymbol { symbol }
                        && symbol == c
                }
            }),
    {
        let pending = self.peek_char();
        let mut lexeme = String::new();
        push_char(&mut lexeme, c);
        match pending {
            Some(n) => {
                if pair_operator(c, n) {
                    let _ = self.next_char();
                    push_char(&mut lexeme, n);
                    proof {
                        assert(lexeme@ =~= seq![c, n]);
                    }
                    return Ok((TokenType::Operator, lexeme));
                }
            },
            None => {},
        }
        if single_operator(c) {
            proof {
                assert(lexeme@ =~= seq![c]);
            }
            Ok((TokenType::Operator, lexeme))
        } else {
            Err(LexerError::UnknownSymbol { symbol: c })
        }
    }

    /// The opener a closing bracket must match.  Handing this anything but
    /// a closing bracket is a programming error, excluded by precondition
    /// rather than reported as a lexical error.
    fn map_punctuation(c: char) -> (r: char)
        requires
            is_close_char(c),
        ensures
            r == opener_for(c),
    {
        if c == ')' {
            '('
        } else if c == ']' {
            '['
        } else {
            '{'
        }
    }

    /// Opens a nesting level for `c`: pushes it on the bracket stack and
    /// returns the depth identifier it receives — how many levels of the
    /// same symbol were already open.
    fn push_open_punctuation(&mut self, c: char) -> (depth: usize)
        requires
            old(self).wf(),
        ensures
            final(self).wf(),
            final(self).src() == old(self).src(),
            final(self).at() == old(self).at(),
            final(self).opens() == old(self).opens().push(c),
            depth == count_open(old(self).opens(), c),
    {
        let depth = depth_of(&self.balance, c);
        self.balance.push(c);
        depth
    }

    /// Closes a nesting level for the closing bracket `c`: the innermost
    /// open bracket must be the matching opener, which is popped, and the
    /// depth identifier returned is the number of same-symbol levels still
    /// open.  Otherwise the stack is left alone and a misbalance error
    /// names the closer and the opener it needed.
    fn push_close_punctuation(&mut self, c: char) -> (r: Result<usize, LexerError>)
        requires
            old(self).wf(),
            is_close_char(c),
        ensures
            final(self).wf(),
            final(self).src() == old(self).src(),
            final(self).at() == old(self).at(),
            ({
                let o = opener_for(c);
                if old(self).opens().len() > 0 && old(self).opens().last() == o {
                    &&& final(self).opens() == old(self).opens().drop_last()
                    &&& r matches Ok(depth) && depth == count_open(old(self).opens(), o) - 1
                } else {
                    &&& final(self).opens() == old(self).opens()
                    &&& r matches Err(e) && e matches LexerError::MisbalancedSymbol {
                        symbol,
                        open,
                    } && symbol == c && open == o
                }
            }),
    {
        let o = Lexer::map_punctuation(c);
        let n = self.balance.len();
        if n > 0 && self.balance[n - 1] == o {
            let ghost before = self.balance@;
            let _ = self.balance.pop();
            proof {
                assert(self.balance@ =~= before.drop_last());
                lemma_count_in_agree(self.balance@, before, o, n - 1);
                lemma_count_in_le(before, o, n as int);
            }
            let depth = depth_of(&self.balance, o);
            Ok(depth)
        } else {
            Err(LexerError::MisbalancedSymbol { symbol: c, open: o })
        }
    }

    /// Dispatches one consumed character `c` to the sub-scanner its class
    /// selects and hands back that scanner's kind and lexeme, or its error.
    /// The classes are tried in the model's order: brackets, identifiers
    /// and keywords, numeric literals, string and character literals,
    /// comments, then operators; what none of them claims is an unknown
    /// symbol.
    fn transform_type(&mut self, c: char) -> (r: Result<(TokenType, String), LexerError>)
        requires
            old(self).wf(),
            0 < old(self).at() <= old(self).src().len(),
            old(self).src()[old(self).at() - 1] == c,
        ensures
            final(self).wf(),
            final(self).src() == old(self).src(),
            ({
                let m = dispatch_model(old(self).src(), old(self).at() - 1, old(self).opens());
                &&& final(self).at() == m.end
                &&& final(self).opens() == m.opens
                &&& match (r, m.res) {
                    (Ok(p), Ok(tm)) => p.0 == tm.kind && p.1@ == tm.lexeme,
                    (Err(e), Err(em)) => err_matches(e, em),
                    _ => false,
                }
            }),
    {
        if open_char(c) {
            let depth = self.push_open_punctuation(c);
            let mut lexeme = String::new();
            push_char(&mut lexeme, c);
            proof {
                assert(lexeme@ =~= seq![c]);
            }
            Ok((
                TokenType::Punctuation { raw: c, kind: PunctuationKind::Open(depth) },
                lexeme,
            ))
        } else if close_char(c) {
            match self.push_close_punctuation(c) {
                Ok(depth) => {
                    let mut lexeme = String::new();
                    push_char(&mut lexeme, c);
                    proof {
                        assert(lexeme@ =~= seq![c]);
                    }
                    Ok((
                        TokenType::Punctuation { raw: c, kind: PunctuationKind::Close(depth) },
                        lexeme,
                    ))
                },
                Err(e) => Err(e),
            }
        } else if ident_start_char(c) {
            let (kind, lexeme) = self.parse_identifier(c);
            Ok((kind, lexeme))
        } else if digit_char(c) {
            self.parse_number(c)
        } else if c == '"' {
            self.parse_string()
        } else if c == '\'' {
            self.parse_char()
        } else if c == '#' {
            self.lex_comment()
        } else {
            self.lex_operator(c)
        }
    }

    /// Produces the next token: skips whitespace, then consumes exactly the
    /// characters of one token (or of one lexical error) and tags the token
    /// with the position where it starts.  Once the input is exhausted,
    /// every call returns the end-of-input token and changes nothing.
    pub fn next_token(&mut self) -> (r: Result<Token, LexerError>)
        requires
            old(self).wf(),
        ensures
            final(self).wf(),
            final(self).src() == old(self).src(),
            ({
                let m = next_token_model(old(self).src(), old(self).at(), old(self).opens());
                &&& final(self).at() == m.end
                &&& final(self).opens() == m.opens
                &&& result_matches(
                    r,
                    m.res,
                    pos_at(old(self).src(), skip_ws(old(self).src(), old(self).at())),
                )
            }),
    {
        proof {
            lemma_skip_ws_bounds(old(self).src(), old(self).at());
        }
        self.skip_whitespace();
        let position = self.current_position();
        match self.next_char() {
            Some(c) => match self.transform_type(c) {
                Ok((kind, lexeme)) => Ok(Token::new(kind, lexeme, position)),
                Err(e) => Err(e),
            },
            None => Ok(Token::new(TokenType::EndOfInput, String::new(), position)),
        }
    }

    /// Produces what the next call of [`Lexer::next_token`] would produce,
    /// without any lasting change: the cursor, the position counters and
    /// the bracket stack are exactly as before the call.
    pub fn peek_token(&mut self) -> (r: Result<Token, LexerError>)
        requires
            old(self).wf(),
        ensures
            *final(self) == *old(self),
            ({
                let m = next_token_model(old(self).src(), old(self).at(), old(self).opens());
                result_matches(
                    r,
                    m.res,
                    pos_at(old(self).src(), skip_ws(old(self).src(), old(self).at())),
                )
            }),
    {
        let mut probe = Lexer {
            input: copy_chars(&self.input),
            pos: self.pos,
            cur_line: self.cur_line,
            cur_col: self.cur_col,
            balance: copy_chars(&self.balance),
        };
        probe.next_token()
    }

    /// Produces what the next call of [`Lexer::next_token`] would produce,
    /// or `None` when the cursor already stands at the end of input; the
    /// scanner itself is left exactly as before the call.
    pub fn peek(&mut self) -> (r: Option<Result<Token, LexerError>>)
        requires
            old(self).wf(),
        ensures
            *final(self) == *old(self),
            old(self).at() >= old(self).src().len() ==> r is None,
            old(self).at() < old(self).src().len() ==> ({
                let m = next_token_model(old(self).src(), old(self).at(), old(self).opens());
                r matches Some(x) && result_matches(
                    x,
                    m.res,
                    pos_at(old(self).src(), skip_ws(old(self).src(), old(self).at())),
                )
            }),
    {
        if self.pos >= self.input.len() {
            None
        } else {
            Some(self.peek_token())
        }
    }

    /// Consumes characters up to and including the first occurrence of
    /// `pattern`, or the whole rest of the input if `pattern` does not
    /// occur again.
    pub fn consume_until(&mut self, pattern: char)
        requires
            old(self).wf(),
        ensures
            final(self).wf(),
            final(self).src() == old(self).src(),
            final(self).opens() == old(self).opens(),
            final(self).at() == consume_until_end(old(self).src(), old(self).at(), pattern),
    {
        let ghost initial = *old(self);
        let ghost mdl = consume_until_end(initial.src(), initial.at(), pattern);
        loop
            invariant_except_break
                mdl == consume_until_end(self.src(), self.at(), pattern),
            invariant
                initial == *old(self),
                self.wf(),
                self.src() == initial.src(),
                self.opens() == initial.opens(),
                0 <= initial.at() <= self.at() <= self.src().len(),
                mdl == consume_until_end(initial.src(), initial.at(), pattern),
            ensures
                initial == *old(self),
                self.wf(),
                self.src() == initial.src(),
                self.opens() == initial.opens(),
                self.at() == mdl,
            decreases self.src().len() - self.at(),
        {
            match self.next_char() {
                None => {
                    break;
                },
                Some(n) => {
                    if n == pattern {
                        break;
                    }
                },
            }
        }
    }
}

/// A fresh vector holding the same characters.
fn copy_chars(v: &Vec<char>) -> (r: Vec<char>)
    ensures
        r@ == v@,
{
    let mut r: Vec<char> = Vec::new();
    let mut i: usize = 0;
    while i < v.len()
        invariant
            i <= v@.len(),
            r@ == v@.subrange(0, i as int),
        decreases v@.len() - i,
    {
        r.push(v[i]);
        proof {
            assert(r@ =~= v@.subrange(0, i + 1));
        }
        i = i + 1;
    }
    proof {
        assert(r@ =~= v@);
    }
    r
}

/// How many symbols on the stack equal `c`: the nesting depth the next
/// opened `c` would receive.
fn depth_of(balance: &Vec<char>, c: char) -> (d: usize)
    ensures
        d == count_open(balance@, c),
{
    let mut d: usize = 0;
    let mut i: usize = 0;
    while i < balance.len()
        invariant
            i <= balance@.len(),
            d == count_in(balance@, c, i as int),
            d <= i,
        decreases balance@.len() - i,
    {
        if balance[i] == c {
            d = d + 1;
        }
        i = i + 1;
    }
    d
}

/// Whether the finished name is in the keyword table.
fn keyword_text(s: &String) -> (b: bool)
    ensures
        b == is_keyword_text(s@),
{
    let t = s.as_str();
    t.unicode_len() == 3 && t.get_char(0) == 'i' && t.get_char(1) == 'n' && t.get_char(2) == 't'
}

/// One more than `x`, saturating at the top of the `usize` range, as the
/// position model does.
fn bump_counter(x: usize) -> (r: usize)
    ensures
        r == bump(x),
{
    if x < usize::MAX {
        x + 1
    } else {
        x
    }
}

/// Relies on `String::push`: appends exactly the given character.
#[verifier::external_body]
fn push_char(s: &mut String, c: char)
    ensures
        final(s)@ == old(s)@.push(c),
{
    s.push(c);
}

} // verus!
