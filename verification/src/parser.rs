//! The recursive-descent parser for the arithmetic expression grammar:
//!
//! ```text
//! expression -> term
//! term       -> factor ( ("-" | "+") factor )*
//! factor     -> primary ( ("/" | "*") primary )*
//! primary    -> NUMBER | "(" expression ")"
//! ```
//!
//! Operators of one precedence level fold into a left-leaning chain. The
//! mathematical model is one spec function per production, each returning
//! what it parsed and where the next production resumes, or how it failed.
use crate::expression::{Expr, ExprView};
use crate::scanner::token_views;
use crate::token::{Token, TokenType, TokenView};
use vstd::prelude::*;

verus! {

/// How a parse failed: the only token the grammar ever demands outright is
/// the closing parenthesis.
#[derive(Clone, Copy, Debug, PartialEq, Eq, Structural)]
pub enum ParseError {
    ExpectedRightParen,
}

impl ParseError {
    /// The message the parser reports for this failure.
    pub fn message(&self) -> (m: &'static str)
        ensures
            m@ == "Expect ')' after expression."@,
    {
        "Expect ')' after expression."
    }
}

/// What one production did: produced an expression and the position after
/// it, matched nothing at all, or demanded a closing parenthesis that was
/// not there.
pub enum Parsed {
    Found { expr: ExprView, next: int },
    NoMatch,
    MissingParen,
}

/// The position a production resumes at, forced forward past `lo` and kept
/// within the input; the identity wherever `lo <= v <= hi` already holds.
pub open spec fn resume_at(v: int, lo: int, hi: int) -> int {
    if hi <= lo {
        hi
    } else if v < lo {
        lo
    } else if v > hi {
        hi
    } else {
        v
    }
}

/// How many tokens remain ahead of position `i`, clamped into the input.
pub open spec fn remaining(toks: Seq<TokenView>, i: int) -> int {
    toks.len() - resume_at(i, 0, toks.len() as int)
}

/// primary -> NUMBER | "(" expression ")"
pub open spec fn parse_primary(toks: Seq<TokenView>, i: int) -> Parsed
    decreases remaining(toks, i), 0int,
{
    if 0 <= i < toks.len() && toks[i].token_type == TokenType::Number {
        Parsed::Found { expr: ExprView::Literal { value: toks[i] }, next: i + 1 }
    } else if 0 <= i < toks.len() && toks[i].token_type == TokenType::LeftParen {
        match parse_expression(toks, i + 1) {
            Parsed::Found { expr, next } => {
                if 0 <= next < toks.len() && toks[next].token_type == TokenType::RightParen {
                    Parsed::Found { expr, next: next + 1 }
                } else {
                    Parsed::MissingParen
                }
            },
            other => other,
        }
    } else {
        Parsed::NoMatch
    }
}

/// The `( ("/" | "*") primary )*` tail of a factor, folding onto `acc` from
/// the left.
pub open spec fn parse_factor_rest(toks: Seq<TokenView>, i: int, acc: ExprView) -> Parsed
    decreases remaining(toks, i), 1int,
{
    if 0 <= i < toks.len() && (toks[i].token_type == TokenType::Slash || toks[i].token_type
        == TokenType::Star) {
        match parse_primary(toks, i + 1) {
            Parsed::Found { expr, next } => parse_factor_rest(
                toks,
                resume_at(next, i + 2, toks.len() as int),
                ExprView::Binary {
                    left: Box::new(acc),
                    operator: toks[i],
                    right: Box::new(expr),
                },
            ),
            other => other,
        }
    } else {
        Parsed::Found { expr: acc, next: i }
    }
}

/// factor -> primary ( ("/" | "*") primary )*
pub open spec fn parse_factor(toks: Seq<TokenView>, i: int) -> Parsed
    decreases remaining(toks, i), 2int,
{
    match parse_primary(toks, i) {
        Parsed::Found { expr, next } => parse_factor_rest(
            toks,
            resume_at(next, i + 1, toks.len() as int),
            expr,
        ),
        other => other,
    }
}

/// The `( ("-" | "+") factor )*` tail of a term, folding onto `acc` from the
/// left.
pub open spec fn parse_term_rest(toks: Seq<TokenView>, i: int, acc: ExprView) -> Parsed
    decreases remaining(toks, i), 3int,
{
    if 0 <= i < toks.len() && (toks[i].token_type == TokenType::Minus || toks[i].token_type
        == TokenType::Plus) {
        match parse_factor(toks, i + 1) {
            Parsed::Found { expr, next } => parse_term_rest(
                toks,
                resume_at(next, i + 2, toks.len() as int),
                ExprView::Binary {
                    left: Box::new(acc),
                    operator: toks[i],
                    right: Box::new(expr),
                },
            ),
            other => other,
        }
    } else {
        Parsed::Found { expr: acc, next: i }
    }
}

/// term -> factor ( ("-" | "+") factor )*
pub open spec fn parse_term(toks: Seq<TokenView>, i: int) -> Parsed
    decreases remaining(toks, i), 4int,
{
    match parse_factor(toks, i) {
        Parsed::Found { expr, next } => parse_term_rest(
            toks,
            resume_at(next, i + 1, toks.len() as int),
            expr,
        ),
        other => other,
    }
}

/// expression -> term
pub open spec fn parse_expression(toks: Seq<TokenView>, i: int) -> Parsed
    decreases remaining(toks, i), 5int,
{
    parse_term(toks, i)
}

/// The parser's recorded failure after a production ran: a demanded closing
/// parenthesis that was missing is recorded; any other outcome leaves the
/// record as it was.
pub open spec fn err_after(p: Parsed, before: Option<ParseError>) -> Option<ParseError> {
    match p {
        Parsed::MissingParen => Option::Some(ParseError::ExpectedRightParen),
        _ => before,
    }
}

/// A production that succeeds consumes at least one token and stays within
/// the input.
pub proof fn lemma_parse_primary_bounds(toks: Seq<TokenView>, i: int)
    requires
        0 <= i <= toks.len(),
    ensures
        match parse_primary(toks, i) {
            Parsed::Found { expr, next } => i < next <= toks.len(),
            _ => true,
        },
    decreases toks.len() - i, 0int,
{
    if 0 <= i < toks.len() && toks[i].token_type == TokenType::Number {
    } else if 0 <= i < toks.len() && toks[i].token_type == TokenType::LeftParen {
        lemma_parse_expression_bounds(toks, i + 1);
    }
}

/// The tail of a factor never moves backwards and stays within the input.
pub proof fn lemma_parse_factor_rest_bounds(toks: Seq<TokenView>, i: int, acc: ExprView)
    requires
        0 <= i <= toks.len(),
    ensures
        match parse_factor_rest(toks, i, acc) {
            Parsed::Found { expr, next } => i <= next <= toks.len(),
            _ => true,
        },
    decreases toks.len() - i, 1int,
{
    if 0 <= i < toks.len() && (toks[i].token_type == TokenType::Slash || toks[i].token_type
        == TokenType::Star) {
        lemma_parse_primary_bounds(toks, i + 1);
        match parse_primary(toks, i + 1) {
            Parsed::Found { expr, next } => {
                lemma_parse_factor_rest_bounds(
                    toks,
                    resume_at(next, i + 2, toks.len() as int),
                    ExprView::Binary {
                        left: Box::new(acc),
                        operator: toks[i],
                        right: Box::new(expr),
                    },
                );
            },
            _ => {},
        }
    }
}

/// A factor that succeeds consumes at least one token and stays within the
/// input.
pub proof fn lemma_parse_factor_bounds(toks: Seq<TokenView>, i: int)
    requires
        0 <= i <= toks.len(),
    ensures
        match parse_factor(toks, i) {
            Parsed::Found { expr, next } => i < next <= toks.len(),
            _ => true,
        },
    decreases toks.len() - i, 2int,
{
    lemma_parse_primary_bounds(toks, i);
    match parse_primary(toks, i) {
        Parsed::Found { expr, next } => {
            lemma_parse_factor_rest_bounds(toks, resume_at(next, i + 1, toks.len() as int), expr);
        },
        _ => {},
    }
}

/// The tail of a term never moves backwards and stays within the input.
pub proof fn lemma_parse_term_rest_bounds(toks: Seq<TokenView>, i: int, acc: ExprView)
    requires
        0 <= i <= toks.len(),
    ensures
        match parse_term_rest(toks, i, acc) {
            Parsed::Found { expr, next } => i <= next <= toks.len(),
            _ => true,
        },
    decreases toks.len() - i, 3int,
{
    if 0 <= i < toks.len() && (toks[i].token_type == TokenType::Minus || toks[i].token_type
        == TokenType::Plus) {
        lemma_parse_factor_bounds(toks, i + 1);
        match parse_factor(toks, i + 1) {
            Parsed::Found { expr, next } => {
                lemma_parse_term_rest_bounds(
                    toks,
                    resume_at(next, i + 2, toks.len() as int),
                    ExprView::Binary {
                        left: Box::new(acc),
                        operator: toks[i],
                        right: Box::new(expr),
                    },
                );
            },
            _ => {},
        }
    }
}

/// A term that succeeds consumes at least one token and stays within the
/// input.
pub proof fn lemma_parse_term_bounds(toks: Seq<TokenView>, i: int)
    requires
        0 <= i <= toks.len(),
    ensures
        match parse_term(toks, i) {
            Parsed::Found { expr, next } => i < next <= toks.len(),
            _ => true,
        },
    decreases toks.len() - i, 4int,
{
    lemma_parse_factor_bounds(toks, i);
    match parse_factor(toks, i) {
        Parsed::Found { expr, next } => {
            lemma_parse_term_rest_bounds(toks, resume_at(next, i + 1, toks.len() as int), expr);
        },
        _ => {},
    }
}

/// An expression that parses consumes at least one token and stays within
/// the input.
pub proof fn lemma_parse_expression_bounds(toks: Seq<TokenView>, i: int)
    requires
        0 <= i <= toks.len(),
    ensures
        match parse_expression(toks, i) {
            Parsed::Found { expr, next } => i < next <= toks.len(),
            _ => true,
        },
    decreases toks.len() - i, 5int,
{
    lemma_parse_term_bounds(toks, i);
}

/// The parser: a cursor over a token sequence that always ends with the
/// end-of-input marker.
pub struct Parser {
    tokens: Vec<Token>,
    current: usize,
    error: Option<ParseError>,
}

impl Parser {
    /// The tokens the parser walks, as their views.
    pub closed spec fn toks(self) -> Seq<TokenView> {
        token_views(self.tokens@)
    }

    /// The cursor.
    pub closed spec fn pos(self) -> int {
        self.current as int
    }

    /// The recorded failure, if a parse demanded a token that was not there.
    pub closed spec fn err(self) -> Option<ParseError> {
        self.error
    }

    /// The parser's invariant: the cursor stays on a token, and the token
    /// sequence ends with the end-of-input marker.
    pub open spec fn wf(self) -> bool {
        &&& self.toks().len() > 0
        &&& 0 <= self.pos() < self.toks().len()
        &&& self.toks()[self.toks().len() - 1].token_type == TokenType::Eof
    }

    pub fn new(tokens: Vec<Token>) -> (p: Parser)
        requires
            tokens@.len() > 0,
            tokens@[tokens@.len() - 1].token_type == TokenType::Eof,
        ensures
            p.wf(),
            p.toks() == token_views(tokens@),
            p.pos() == 0,
            p.err() is None,
    {
        proof {
            assert(token_views(tokens@)[tokens@.len() - 1] == tokens@[tokens@.len() - 1]@);
        }
        Parser { tokens, current: 0, error: Option::None }
    }

    /// The token under the cursor.
    fn peek(&self) -> (t: &Token)
        requires
            self.wf(),
        ensures
            t@ == self.toks()[self.pos()],
    {
        proof {
            assert(token_views(self.tokens@)[self.current as int] == self.tokens@[self.current as int]@);
        }
        &self.tokens[self.current]
    }

    /// The token just before the cursor.
    fn previous(&self) -> (t: &Token)
        requires
            self.wf(),
            self.pos() >= 1,
        ensures
            t@ == self.toks()[self.pos() - 1],
    {
        proof {
            assert(token_views(self.tokens@)[self.current - 1] == self.tokens@[self.current - 1]@);
        }
        &self.tokens[self.current - 1]
    }

    /// Whether the cursor has reached the end-of-input marker.
    fn is_at_end(&self) -> (r: bool)
        requires
            self.wf(),
        ensures
            r == (self.toks()[self.pos()].token_type == TokenType::Eof),
    {
        self.peek().token_type == TokenType::Eof
    }

    /// Whether the token under the cursor is of the given kind; never true at
    /// the end of the input, and never advances.
    fn check(&self, token_type: TokenType) -> (r: bool)
        requires
            self.wf(),
        ensures
            r == (self.toks()[self.pos()].token_type != TokenType::Eof
                && self.toks()[self.pos()].token_type == token_type),
    {
        if self.is_at_end() {
            false
        } else {
            self.peek().token_type == token_type
        }
    }

    /// Moves the cursor past the current token, unless it is the end-of-input
    /// marker.
    fn advance(&mut self)
        requires
            old(self).wf(),
        ensures
            final(self).wf(),
            final(self).toks() == old(self).toks(),
            final(self).err() == old(self).err(),
            old(self).toks()[old(self).pos()].token_type != TokenType::Eof ==> final(self).pos()
                == old(self).pos() + 1,
            old(self).toks()[old(self).pos()].token_type == TokenType::Eof ==> final(self).pos()
                == old(self).pos(),
    {
        if !self.is_at_end() {
            let n = self.tokens.len();
            self.current = self.current + 1;
        }
    }

    /// Demands a token of the given kind: consumes it where it stands under
    /// the cursor, and records the failure otherwise.
    fn consume(&mut self, token_type: TokenType, on_fail: ParseError) -> (r: bool)
        requires
            old(self).wf(),
        ensures
            final(self).wf(),
            final(self).toks() == old(self).toks(),
            r == (old(self).toks()[old(self).pos()].token_type != TokenType::Eof && old(
                self,
            ).toks()[old(self).pos()].token_type == token_type),
            r ==> final(self).pos() == old(self).pos() + 1 && final(self).err() == old(self).err(),
            !r ==> final(self).pos() == old(self).pos() && final(self).err() == Option::Some(
                on_fail,
            ),
    {
        if self.check(token_type) {
            self.advance();
            true
        } else {
            self.error = Option::Some(on_fail);
            false
        }
    }

    /// primary -> NUMBER | "(" expression ")"
    fn primary(&mut self) -> (r: Option<Expr>)
        requires
            old(self).wf(),
        ensures
            final(self).wf(),
            final(self).toks() == old(self).toks(),
            final(self).err() == err_after(
                parse_primary(old(self).toks(), old(self).pos()),
                old(self).err(),
            ),
            (match parse_primary(old(self).toks(), old(self).pos()) {
                Parsed::Found { expr, next } => r matches Option::Some(e) && e@ == expr
                    && final(self).pos() == next,
                Parsed::NoMatch => r is None,
                Parsed::MissingParen => r is None,
            }),
            (old(self).toks()[old(self).pos()].token_type != TokenType::Number && old(
                self,
            ).toks()[old(self).pos()].token_type != TokenType::LeftParen) ==> final(self).pos()
                == old(self).pos(),
            (match parse_expression(old(self).toks(), old(self).pos() + 1) {
                Parsed::Found { expr, next } => (old(self).toks()[old(self).pos()].token_type
                    == TokenType::LeftParen && !(0 <= next < old(self).toks().len() && old(
                    self,
                ).toks()[next].token_type == TokenType::RightParen)) ==> final(self).pos() == next,
                _ => true,
            }),
        decreases old(self).toks().len() - old(self).pos(), 0int,
    {
        let ghost toks = self.toks();
        let ghost p0 = self.pos();
        if self.check(TokenType::Number) {
            self.advance();
            let value = self.previous().clone();
            return Option::Some(Expr::Literal { value });
        }
        if self.check(TokenType::LeftParen) {
            self.advance();
            let inner = self.expression();
            let expr = match inner {
                Option::Some(e) => e,
                Option::None => {
                    return Option::None;
                },
            };
            if !self.consume(TokenType::RightParen, ParseError::ExpectedRightParen) {
                return Option::None;
            }
            return Option::Some(expr);
        }
        Option::None
    }

    /// factor -> primary ( ("/" | "*") primary )*
    fn factor(&mut self) -> (r: Option<Expr>)
        requires
            old(self).wf(),
        ensures
            final(self).wf(),
            final(self).toks() == old(self).toks(),
            final(self).err() == err_after(
                parse_factor(old(self).toks(), old(self).pos()),
                old(self).err(),
            ),
            (match parse_factor(old(self).toks(), old(self).pos()) {
                Parsed::Found { expr, next } => r matches Option::Some(e) && e@ == expr
                    && final(self).pos() == next,
                Parsed::NoMatch => r is None,
                Parsed::MissingParen => r is None,
            }),
        decreases old(self).toks().len() - old(self).pos(), 2int,
    {
        let ghost toks = self.toks();
        let ghost p0 = self.pos();
        let ghost err0 = self.err();
        let first = self.primary();
        let mut expr = match first {
            Option::Some(e) => e,
            Option::None => {
                return Option::None;
            },
        };
        proof {
            lemma_parse_primary_bounds(toks, p0);
        }
        loop
            invariant_except_break
                self.wf(),
                self.toks() == toks,
                self.err() == err0,
                toks == old(self).toks(),
                p0 == old(self).pos(),
                err0 == old(self).err(),
                0 <= p0 < toks.len(),
                p0 < self.pos() <= toks.len(),
                parse_factor(toks, p0) == parse_factor_rest(toks, self.pos(), expr@),
            ensures
                self.wf(),
                self.toks() == toks,
                self.err() == err0,
                parse_factor(toks, p0) == (Parsed::Found { expr: expr@, next: self.pos() }),
            decreases toks.len() - self.pos(),
        {
            let ghost pi = self.pos();
            let slash = self.check(TokenType::Slash);
            let star = self.check(TokenType::Star);
            if !slash && !star {
                proof {
                    assert(parse_factor_rest(toks, pi, expr@) == (Parsed::Found {
                        expr: expr@,
                        next: pi,
                    }));
                }
                break ;
            }
            self.advance();
            let operator = self.previous().clone();
            let right = match self.primary() {
                Option::Some(e) => e,
                Option::None => {
                    return Option::None;
                },
            };
            proof {
                lemma_parse_primary_bounds(toks, pi + 1);
            }
            expr = Expr::binary(expr, operator, right);
        }
        Option::Some(expr)
    }

    /// term -> factor ( ("-" | "+") factor )*
    fn term(&mut self) -> (r: Option<Expr>)
        requires
            old(self).wf(),
        ensures
            final(self).wf(),
            final(self).toks() == old(self).toks(),
            final(self).err() == err_after(
                parse_term(old(self).toks(), old(self).pos()),
                old(self).err(),
            ),
            (match parse_term(old(self).toks(), old(self).pos()) {
                Parsed::Found { expr, next } => r matches Option::Some(e) && e@ == expr
                    && final(self).pos() == next,
                Parsed::NoMatch => r is None,
                Parsed::MissingParen => r is None,
            }),
        decreases old(self).toks().len() - old(self).pos(), 4int,
    {
        let ghost toks = self.toks();
        let ghost p0 = self.pos();
        let ghost err0 = self.err();
        let first = self.factor();
        let mut expr = match first {
            Option::Some(e) => e,
            Option::None => {
                return Option::None;
            },
        };
        proof {
            lemma_parse_factor_bounds(toks, p0);
        }
        loop
            invariant_except_break
                self.wf(),
                self.toks() == toks,
                self.err() == err0,
                toks == old(self).toks(),
                p0 == old(self).pos(),
                err0 == old(self).err(),
                0 <= p0 < toks.len(),
                p0 < self.pos() <= toks.len(),
                parse_term(toks, p0) == parse_term_rest(toks, self.pos(), expr@),
            ensures
                self.wf(),
                self.toks() == toks,
                self.err() == err0,
                parse_term(toks, p0) == (Parsed::Found { expr: expr@, next: self.pos() }),
            decreases toks.len() - self.pos(),
        {
            let ghost pi = self.pos();
            let minus = self.check(TokenType::Minus);
            let plus = self.check(TokenType::Plus);
            if !minus && !plus {
                proof {
                    assert(parse_term_rest(toks, pi, expr@) == (Parsed::Found {
                        expr: expr@,
                        next: pi,
                    }));
                }
                break ;
            }
            self.advance();
            let operator = self.previous().clone();
            let right = match self.factor() {
                Option::Some(e) => e,
                Option::None => {
                    return Option::None;
                },
            };
            proof {
                lemma_parse_factor_bounds(toks, pi + 1);
            }
            expr = Expr::binary(expr, operator, right);
        }
        Option::Some(expr)
    }

    /// expression -> term
    fn expression(&mut self) -> (r: Option<Expr>)
        requires
            old(self).wf(),
        ensures
            final(self).wf(),
            final(self).toks() == old(self).toks(),
            final(self).err() == err_after(
                parse_expression(old(self).toks(), old(self).pos()),
                old(self).err(),
            ),
            (match parse_expression(old(self).toks(), old(self).pos()) {
                Parsed::Found { expr, next } => r matches Option::Some(e) && e@ == expr
                    && final(self).pos() == next,
                Parsed::NoMatch => r is None,
                Parsed::MissingParen => r is None,
            }),
        decreases old(self).toks().len() - old(self).pos(), 5int,
    {
        self.term()
    }

    /// Parses one expression from the cursor onwards: the tree the grammar
    /// gives, and nothing on any failure, with a demanded-but-missing closing
    /// parenthesis recorded for the caller to report.
    pub fn parse(&mut self) -> (r: Option<Expr>)
        requires
            old(self).wf(),
        ensures
            final(self).wf(),
            final(self).toks() == old(self).toks(),
            final(self).err() == err_after(
                parse_expression(old(self).toks(), old(self).pos()),
                old(self).err(),
            ),
            (match parse_expression(old(self).toks(), old(self).pos()) {
                Parsed::Found { expr, next } => r matches Option::Some(e) && e@ == expr
                    && final(self).pos() == next,
                Parsed::NoMatch => r is None,
                Parsed::MissingParen => r is None,
            }),
    {
        self.expression()
    }

    /// The failure recorded by `parse`, if any.
    pub fn last_error(&self) -> (e: Option<ParseError>)
        ensures
            e == self.err(),
    {
        self.error
    }
}

} // verus!
