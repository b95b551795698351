//! The parser shell: drives the scanner over the whole source, collecting
//! the semantic tokens in order and a located record of every lexical
//! failure, continuing past failures rather than stopping at the first.
//! No structural analysis happens yet; the token list is the result.

use vstd::prelude::*;

use crate::lexer::Lexer;
use crate::scan::drive;
use crate::scan::err_matches;
use crate::scan::lemma_next_token_progress;
use crate::scan::next_token_model;
use crate::scan::skip_ws;
use crate::scan::ItemModel;
use crate::token::LexerError;
use crate::token::Token;
use crate::token::TokenType;

verus! {

/// A located record of a lexical failure met while parsing: the error and
/// the line and column the scanner stood at right after it.
#[derive(Debug, Clone, PartialEq, Eq)]
pub enum ParserError {
    Generic { error: LexerError, line: usize, column: usize },
}

/// The terminal symbols a later structural analysis will match tokens
/// against; data only for now.
#[derive(Debug, Clone, PartialEq, Eq)]
pub enum Terminal {
    Int,
    Identifier { raw: String },
    Char { c: char },
    IntLiteral { raw: String },
    If,
    For,
    While,
    Function,
    EndIf,
    EndRepeat,
    EndFunction,
}

/// Whether a collected token agrees with a driven token item: same kind,
/// the same text viewed as a sequence, and the item's position.
pub open spec fn item_matches_token(t: Token, m: ItemModel) -> bool {
    &&& m matches ItemModel::Tok { kind, lexeme, position }
    &&& t.kind == kind && t.lexeme@ == lexeme && t.position == position
}

/// Whether a collected error record agrees with a driven fault item: the
/// same error, at the item's line and column.
pub open spec fn item_matches_error(e: ParserError, m: ItemModel) -> bool {
    &&& m matches ItemModel::Fault { err, line, column }
    &&& e matches ParserError::Generic { error, line: el, column: ec }
    &&& err_matches(error, err)
    &&& el == line && ec == column
}

/// The token items among the driven items, in order.
pub open spec fn toks_of(items: Seq<ItemModel>) -> Seq<ItemModel> {
    items.filter(|m: ItemModel| m is Tok)
}

/// The fault items among the driven items, in order.
pub open spec fn faults_of(items: Seq<ItemModel>) -> Seq<ItemModel> {
    items.filter(|m: ItemModel| m is Fault)
}

/// The parser shell: the tokens and located errors collected so far, and
/// the scanner they come from.
pub struct Parser {
    pub tokens: Vec<Token>,
    pub errors: Vec<ParserError>,
    lexer: Lexer,
}

impl Parser {
    /// The source text being parsed.
    pub closed spec fn src(&self) -> Seq<char> {
        self.lexer.src()
    }

    /// The scanner's cursor.
    pub closed spec fn at(&self) -> int {
        self.lexer.at()
    }

    /// The scanner's stack of open brackets.
    pub closed spec fn opens(&self) -> Seq<char> {
        self.lexer.opens()
    }

    /// Well-formedness: the scanner is well-formed.
    pub closed spec fn wf(&self) -> bool {
        self.lexer.wf()
    }

    /// The tokens collected so far, as a sequence.
    pub closed spec fn toks(&self) -> Seq<Token> {
        self.tokens@
    }

    /// The error records collected so far, as a sequence.
    pub closed spec fn errs(&self) -> Seq<ParserError> {
        self.errors@
    }

    /// Builds a parser over `src` with a fresh scanner and nothing
    /// collected yet.
    pub fn new(src: &str) -> (parser: Parser)
        ensures
            parser.wf(),
            parser.src() == src@,
            parser.at() == 0,
            parser.opens() == Seq::<char>::empty(),
            parser.toks().len() == 0,
            parser.errs().len() == 0,
    {
        Parser { tokens: Vec::new(), errors: Vec::new(), lexer: Lexer::new(src) }
    }

    /// Drives the scanner to the end of the source: every semantic token —
    /// no-op markers filtered out — is appended to `tokens` in order, every
    /// lexical failure is appended to `errors` with the line and column the
    /// scanner stood at after it, and scanning continues past failures
    /// until only the end of input is left.
    pub fn parse(&mut self) -> (r: Option<()>)
        requires
            old(self).wf(),
        ensures
            final(self).wf(),
            final(self).src() == old(self).src(),
            r is Some,
            skip_ws(final(self).src(), final(self).at()) >= final(self).src().len(),
            ({
                let items = drive(old(self).src(), old(self).at(), old(self).opens());
                let ts = toks_of(items);
                let fs = faults_of(items);
                &&& final(self).toks().len() == old(self).toks().len() + ts.len()
                &&& forall|i: int|
                    0 <= i < old(self).toks().len() ==> final(self).toks()[i] == old(
                        self,
                    ).toks()[i]
                &&& forall|j: int|
                    0 <= j < ts.len() ==> item_matches_token(
                        final(self).toks()[old(self).toks().len() + j],
                        ts[j],
                    )
                &&& final(self).errs().len() == old(self).errs().len() + fs.len()
                &&& forall|i: int|
                    0 <= i < old(self).errs().len() ==> final(self).errs()[i] == old(
                        self,
                    ).errs()[i]
                &&& forall|j: int|
                    0 <= j < fs.len() ==> item_matches_error(
                        final(self).errs()[old(self).errs().len() + j],
                        fs[j],
                    )
            }),
    {
        let ghost initial = *old(self);
        proof {
            self.lexer.lemma_wf_bounds();
        }
        let ghost items0 = drive(initial.src(), initial.at(), initial.opens());
        let ghost mut done: Seq<ItemModel> = Seq::empty();
        proof {
            assert(items0 =~= done + drive(initial.src(), initial.at(), initial.opens()));
        }
        loop
            invariant_except_break
                items0 == done + drive(self.src(), self.at(), self.opens()),
            invariant
                initial == *old(self),
                self.wf(),
                self.src() == initial.src(),
                0 <= initial.at() <= initial.src().len(),
                0 <= self.at() <= self.src().len(),
                items0 == drive(initial.src(), initial.at(), initial.opens()),
                self.tokens@.len() == initial.tokens@.len() + toks_of(done).len(),
                forall|i: int|
                    0 <= i < initial.tokens@.len() ==> self.tokens@[i] == initial.tokens@[i],
                forall|j: int|
                    0 <= j < toks_of(done).len() ==> item_matches_token(
                        self.tokens@[initial.tokens@.len() + j],
                        toks_of(done)[j],
                    ),
                self.errors@.len() == initial.errors@.len() + faults_of(done).len(),
                forall|i: int|
                    0 <= i < initial.errors@.len() ==> self.errors@[i] == initial.errors@[i],
                forall|j: int|
                    0 <= j < faults_of(done).len() ==> item_matches_error(
                        self.errors@[initial.errors@.len() + j],
                        faults_of(done)[j],
                    ),
            ensures
                initial == *old(self),
                self.wf(),
                self.src() == initial.src(),
                items0 == drive(initial.src(), initial.at(), initial.opens()),
                items0 == done,
                skip_ws(self.src(), self.at()) >= self.src().len(),
                self.tokens@.len() == initial.tokens@.len() + toks_of(done).len(),
                forall|i: int|
                    0 <= i < initial.tokens@.len() ==> self.tokens@[i] == initial.tokens@[i],
                forall|j: int|
                    0 <= j < toks_of(done).len() ==> item_matches_token(
                        self.tokens@[initial.tokens@.len() + j],
                        toks_of(done)[j],
                    ),
                self.errors@.len() == initial.errors@.len() + faults_of(done).len(),
                forall|i: int|
                    0 <= i < initial.errors@.len() ==> self.errors@[i] == initial.errors@[i],
                forall|j: int|
                    0 <= j < faults_of(done).len() ==> item_matches_error(
                        self.errors@[initial.errors@.len() + j],
                        faults_of(done)[j],
                    ),
            decreases self.src().len() - self.at(),
        {
            let ghost s = self.src();
            let ghost here = self.at();
            let ghost opens_here = self.opens();
            let ghost m = next_token_model(s, here, opens_here);
            proof {
                lemma_next_token_progress(s, here, opens_here);
            }
            let token = self.lexer.next_token();
            match token {
                Ok(tok) => {
                    if matches!(tok.kind, TokenType::EndOfInput) {
                        proof {
                            if skip_ws(s, here) < s.len() {
                                lemma_dispatch_never_eof(s, here, opens_here);
                            }
                            assert(drive(s, here, opens_here) =~= Seq::<ItemModel>::empty());
                            assert(items0 =~= done);
                        }
                        break;
                    }
                    proof {
                        assert(skip_ws(s, here) < s.len());
                    }
                    if matches!(tok.kind, TokenType::NoOp) {
                        proof {
                            assert(drive(s, here, opens_here) == drive(
                                s,
                                m.end,
                                m.opens,
                            ));
                        }
                    } else {
                        let ghost item = ItemModel::Tok {
                            kind: tok.kind,
                            lexeme: tok.lexeme@,
                            position: tok.position,
                        };
                        self.tokens.push(tok);
                        proof {
                            done = extend_done(done, item, items0, s, here, opens_here);
                        }
                    }
                },
                Err(e) => {
                    let position = self.lexer.current_position();
                    let ghost item = ItemModel::Fault {
                        err: m.res->Err_0,
                        line: position.line,
                        column: position.column,
                    };
                    self.errors.push(
                        ParserError::Generic {
                            error: e,
                            line: position.line,
                            column: position.column,
                        },
                    );
                    proof {
                        assert(skip_ws(s, here) < s.len());
                        done = extend_done(done, item, items0, s, here, opens_here);
                    }
                },
            }
        }
        Some(())
    }
}

/// When a real character is pending, the driver never yields the
/// end-of-input token.
proof fn lemma_dispatch_never_eof(s: Seq<char>, pos: int, opens: Seq<char>)
    requires
        0 <= pos <= s.len(),
        skip_ws(s, pos) < s.len(),
    ensures
        !(next_token_model(s, pos, opens).res matches Ok(t) && t.kind is EndOfInput),
{
}

/// Appends one item to the processed prefix of the driven items and keeps
/// the prefix decomposition and the filtered views in step.
proof fn extend_done(
    pre: Seq<ItemModel>,
    item: ItemModel,
    items0: Seq<ItemModel>,
    s: Seq<char>,
    here: int,
    opens_here: Seq<char>,
) -> (post: Seq<ItemModel>)
    requires
        0 <= here <= s.len(),
        skip_ws(s, here) < s.len(),
        items0 == pre + drive(s, here, opens_here),
        ({
            let m = next_token_model(s, here, opens_here);
            drive(s, here, opens_here) == seq![item] + drive(s, m.end, m.opens)
        }),
    ensures
        post == pre.push(item),
        ({
            let m = next_token_model(s, here, opens_here);
            items0 == post + drive(s, m.end, m.opens)
        }),
        item is Tok ==> toks_of(post) == toks_of(pre).push(item) && faults_of(post) == faults_of(
            pre,
        ),
        item is Fault ==> faults_of(post) == faults_of(pre).push(item) && toks_of(post) == toks_of(
            pre,
        ),
{
    let m = next_token_model(s, here, opens_here);
    let post = pre.push(item);
    assert(post =~= pre + seq![item]);
    assert(items0 =~= post + drive(s, m.end, m.opens));
    Seq::<ItemModel>::lemma_filter_push(pre, item, |mm: ItemModel| mm is Tok);
    Seq::<ItemModel>::lemma_filter_push(pre, item, |mm: ItemModel| mm is Fault);
    post
}

} // verus!
