//! The scanner: a cursor over the source characters that recognizes one
//! lexeme at a time, skipping whitespace and line comments, and stops at the
//! first unrecognized character.
//!
//! The mathematical model is `scan_step`, which says what the scanner does
//! from a given position and line: it either emits one token and the position
//! and line at which scanning resumes, reaches the end of the input, or halts
//! at an unrecognized character. `scan_from` folds `scan_step` into the full
//! token sequence.
use crate::token::{Token, TokenType, TokenView};
use vstd::prelude::*;

verus! {

/// The unrecognized character the scanner halted at, and the 1-based line on
/// which it stood.
#[derive(Clone, Copy, Debug, PartialEq, Eq, Structural)]
pub struct LexError {
    pub line: usize,
    pub ch: char,
}

/// Relies on String::push: it appends exactly the given character.
#[verifier::external_body]
fn push_char(s: &mut std::string::String, c: char)
    ensures
        final(s)@ == old(s)@.push(c),
{
    s.push(c);
}

impl LexError {
    /// The scanner's message for this fault.
    pub fn message(&self) -> (m: std::string::String)
        ensures
            m@ == "Unexpected character: "@.push(self.ch),
    {
        let mut s = String::from_str("Unexpected character: ");
        push_char(&mut s, self.ch);
        s
    }
}

/// What one step of the scanner does from position `i` on line `line`.
pub enum ScanStep {
    /// One token was recognized; scanning resumes at `next` on line `line`.
    Emit { token: TokenView, next: int, line: nat },
    /// The end of the input was reached on line `line`.
    Done { line: nat },
    /// An unrecognized character `ch` was met on line `line`.
    Halt { line: nat, ch: char },
}

/// The outcome of scanning the whole rest of the input: the tokens emitted
/// before the end or the first fault, the fault if there was one, and the
/// line on which scanning ended.
pub struct ScanOut {
    pub tokens: Seq<TokenView>,
    pub error: Option<(nat, char)>,
    pub end_line: nat,
}

/// Whether the Unicode Alphabetic property holds of `c`; the scanner starts
/// an identifier on such a character. Known only through `is_alphabetic_char`.
pub uninterp spec fn alpha(c: char) -> bool;

/// Whether `c` is alphanumeric in the Unicode sense; the scanner extends an
/// identifier over such characters. Known only through `is_alphanumeric_char`.
pub uninterp spec fn alnum(c: char) -> bool;

/// Relies on char::is_alphabetic: whether the Unicode Alphabetic property
/// holds depends on the character alone; every ASCII letter has it, and no
/// other ASCII character does.
#[verifier::external_body]
pub(crate) fn is_alphabetic_char(c: char) -> (b: bool)
    ensures
        b == alpha(c),
        (97 <= c as u32 && c as u32 <= 122) || (65 <= c as u32 && c as u32 <= 90) ==> b,
        (c as u32) < 128 && !((97 <= c as u32 && c as u32 <= 122) || (65 <= c as u32 && c as u32
            <= 90)) ==> !b,
{
    c.is_alphabetic()
}

/// Relies on char::is_alphanumeric: true exactly of characters that are
/// alphabetic or numeric, so it depends on the character alone; it holds of
/// every alphabetic character and every ASCII digit, and of no other ASCII
/// character.
#[verifier::external_body]
pub(crate) fn is_alphanumeric_char(c: char) -> (b: bool)
    ensures
        b == alnum(c),
        alpha(c) ==> b,
        48 <= c as u32 && c as u32 <= 57 ==> b,
        (c as u32) < 128 && !((97 <= c as u32 && c as u32 <= 122) || (65 <= c as u32 && c as u32
            <= 90) || (48 <= c as u32 && c as u32 <= 57)) ==> !b,
{
    c.is_alphanumeric()
}

/// An ASCII decimal digit; the only characters that form a number lexeme.
pub open spec fn is_digit(c: char) -> bool {
    48 <= c as u32 && c as u32 <= 57
}

/// The ten single-character punctuation lexemes.
pub open spec fn is_punct(c: char) -> bool {
    ||| c == '('
    ||| c == ')'
    ||| c == '{'
    ||| c == '}'
    ||| c == ','
    ||| c == '.'
    ||| c == '-'
    ||| c == '+'
    ||| c == ';'
    ||| c == '*'
}

/// The kind of a single-character punctuation token.
pub open spec fn punct_kind(c: char) -> TokenType {
    if c == '(' {
        TokenType::LeftParen
    } else if c == ')' {
        TokenType::RightParen
    } else if c == '{' {
        TokenType::LeftBrace
    } else if c == '}' {
        TokenType::RightBrace
    } else if c == ',' {
        TokenType::Comma
    } else if c == '.' {
        TokenType::Dot
    } else if c == '-' {
        TokenType::Minus
    } else if c == '+' {
        TokenType::Plus
    } else if c == ';' {
        TokenType::Semicolon
    } else {
        TokenType::Star
    }
}

/// The four operators that a following `=` extends to a two-character token.
pub open spec fn is_pairable(c: char) -> bool {
    c == '!' || c == '=' || c == '<' || c == '>'
}

/// The two-character kind when a pairable operator is followed by `=`.
pub open spec fn paired_kind(c: char) -> TokenType {
    if c == '!' {
        TokenType::BangEqual
    } else if c == '=' {
        TokenType::EqualEqual
    } else if c == '<' {
        TokenType::LessEqual
    } else {
        TokenType::GreaterEqual
    }
}

/// The one-character kind when a pairable operator stands alone.
pub open spec fn unpaired_kind(c: char) -> TokenType {
    if c == '!' {
        TokenType::Bang
    } else if c == '=' {
        TokenType::Equal
    } else if c == '<' {
        TokenType::Less
    } else {
        TokenType::Greater
    }
}

/// The kind of an alphanumeric lexeme: one of the sixteen reserved words, by
/// exact case-sensitive match, and an identifier otherwise.
pub open spec fn keyword_kind(lex: Seq<char>) -> TokenType {
    if lex == "and"@ {
        TokenType::And
    } else if lex == "class"@ {
        TokenType::Class
    } else if lex == "else"@ {
        TokenType::Else
    } else if lex == "false"@ {
        TokenType::False
    } else if lex == "fun"@ {
        TokenType::Fun
    } else if lex == "for"@ {
        TokenType::For
    } else if lex == "if"@ {
        TokenType::If
    } else if lex == "nil"@ {
        TokenType::Nil
    } else if lex == "or"@ {
        TokenType::Or
    } else if lex == "print"@ {
        TokenType::Print
    } else if lex == "return"@ {
        TokenType::Return
    } else if lex == "super"@ {
        TokenType::Super
    } else if lex == "this"@ {
        TokenType::This
    } else if lex == "true"@ {
        TokenType::True
    } else if lex == "var"@ {
        TokenType::Var
    } else if lex == "while"@ {
        TokenType::While
    } else {
        TokenType::Identifier
    }
}

/// A token of the scanner's own making: no decoded literal value.
pub open spec fn tokv(token_type: TokenType, lexeme: Seq<char>, line: nat) -> TokenView {
    TokenView { token_type, lexeme, literal: Option::None, line }
}

/// The end-of-input marker appended after every scan.
pub open spec fn eof_token(line: nat) -> TokenView {
    TokenView { token_type: TokenType::Eof, lexeme: Seq::empty(), literal: Option::None, line }
}

/// `v` forced into `[lo, hi]`; the identity wherever the bounds already hold.
pub open spec fn clip(v: int, lo: int, hi: int) -> int {
    if v < lo {
        lo
    } else if v > hi {
        hi
    } else {
        v
    }
}

/// The first position at or after `i` whose character fails `p`, or the end
/// of the input.
pub open spec fn run_end(s: Seq<char>, i: int, p: spec_fn(char) -> bool) -> int
    decreases s.len() - i,
{
    if i < 0 || i >= s.len() {
        s.len() as int
    } else if !p(s[i]) {
        i
    } else {
        run_end(s, i + 1, p)
    }
}

/// How many newline characters `s` holds.
pub open spec fn count_nl(s: Seq<char>) -> nat
    decreases s.len(),
{
    if s.len() == 0 {
        0
    } else {
        count_nl(s.drop_last()) + (if s.last() == '\n' {
            1nat
        } else {
            0nat
        })
    }
}

/// Where a line comment opened at `i - 2` ends: the first newline at or after
/// `i`, which is left for the main loop to consume, or the end of the input.
pub open spec fn comment_end(s: Seq<char>, i: int) -> int {
    clip(run_end(s, i, |c: char| c != '\n'), i, s.len() as int)
}

/// Where the string literal opened just before `i` closes: the position of
/// the closing quote, or the end of the input when it is unterminated.
pub open spec fn string_close(s: Seq<char>, i: int) -> int {
    clip(run_end(s, i, |c: char| c != '"'), i, s.len() as int)
}

/// Where the alphanumeric run continuing from `i` ends.
pub open spec fn word_end(s: Seq<char>, i: int) -> int {
    clip(run_end(s, i, |c: char| alnum(c)), i, s.len() as int)
}

/// Where the digit run continuing from `i` ends.
pub open spec fn number_end(s: Seq<char>, i: int) -> int {
    clip(run_end(s, i, |c: char| is_digit(c)), i, s.len() as int)
}

/// One step of the scanner from position `i` on line `line`: whitespace,
/// newlines and line comments are consumed without a token, then the first
/// lexeme found is emitted, the end of the input is reported, or scanning
/// halts at an unrecognized character.
pub open spec fn scan_step(s: Seq<char>, i: int, line: nat) -> ScanStep
    decreases s.len() - i,
{
    if i < 0 || i >= s.len() {
        ScanStep::Done { line }
    } else {
        let c = s[i];
        if is_punct(c) {
            ScanStep::Emit { token: tokv(punct_kind(c), seq![c], line), next: i + 1, line }
        } else if is_pairable(c) {
            if i + 1 < s.len() && s[i + 1] == '=' {
                ScanStep::Emit { token: tokv(paired_kind(c), seq![c, '='], line), next: i + 2, line }
            } else {
                ScanStep::Emit { token: tokv(unpaired_kind(c), seq![c], line), next: i + 1, line }
            }
        } else if c == '/' {
            if i + 1 < s.len() && s[i + 1] == '/' {
                scan_step(s, comment_end(s, i + 2), line)
            } else {
                ScanStep::Emit { token: tokv(TokenType::Slash, seq![c], line), next: i + 1, line }
            }
        } else if c == '\n' {
            scan_step(s, i + 1, line + 1)
        } else if c == ' ' || c == '\r' || c == '\t' {
            scan_step(s, i + 1, line)
        } else if c == '"' {
            let close = string_close(s, i + 1);
            let lex = s.subrange(i + 1, close);
            let line2 = line + count_nl(lex);
            let next = if close < s.len() {
                close + 1
            } else {
                s.len() as int
            };
            ScanStep::Emit { token: tokv(TokenType::String, lex, line2), next, line: line2 }
        } else if alpha(c) {
            let j = word_end(s, i + 1);
            let lex = s.subrange(i, j);
            ScanStep::Emit { token: tokv(keyword_kind(lex), lex, line), next: j, line }
        } else if is_digit(c) {
            let j = number_end(s, i + 1);
            ScanStep::Emit { token: tokv(TokenType::Number, s.subrange(i, j), line), next: j, line }
        } else {
            ScanStep::Halt { line, ch: c }
        }
    }
}

/// The whole scan from position `i` on line `line`: the tokens of the steps
/// up to the end of the input or the first fault.
pub open spec fn scan_from(s: Seq<char>, i: int, line: nat) -> ScanOut
    decreases s.len() - i,
{
    match scan_step(s, i, line) {
        ScanStep::Done { line: l } => ScanOut {
            tokens: Seq::empty(),
            error: Option::None,
            end_line: l,
        },
        ScanStep::Halt { line: l, ch } => ScanOut {
            tokens: Seq::empty(),
            error: Option::Some((l, ch)),
            end_line: l,
        },
        ScanStep::Emit { token, next, line: l } => {
            let rest = scan_from(s, clip(next, i + 1, s.len() as int), l);
            ScanOut {
                tokens: seq![token] + rest.tokens,
                error: rest.error,
                end_line: rest.end_line,
            }
        },
    }
}

/// The views of a sequence of concrete tokens.
pub open spec fn token_views(ts: Seq<Token>) -> Seq<TokenView> {
    Seq::new(ts.len(), |k: int| ts[k]@)
}

/// `pre` prefixed to the tokens of `rest`, with `rest`'s fault and end line.
pub open spec fn out_cat(pre: Seq<TokenView>, rest: ScanOut) -> ScanOut {
    ScanOut { tokens: pre + rest.tokens, error: rest.error, end_line: rest.end_line }
}

/// `run_end` stays within `[i, s.len()]`, accepts every character before the
/// position it returns, and rejects the character there if any.
pub proof fn lemma_run_end(s: Seq<char>, i: int, p: spec_fn(char) -> bool)
    requires
        0 <= i <= s.len(),
    ensures
        i <= run_end(s, i, p) <= s.len(),
        forall|k: int| i <= k < run_end(s, i, p) ==> p(s[k]),
        run_end(s, i, p) < s.len() ==> !p(s[run_end(s, i, p)]),
    decreases s.len() - i,
{
    if i < s.len() && p(s[i]) {
        lemma_run_end(s, i + 1, p);
    }
}

/// A sequence holds no more newlines than characters.
pub proof fn lemma_count_nl_le_len(s: Seq<char>)
    ensures
        count_nl(s) <= s.len(),
    decreases s.len(),
{
    if s.len() > 0 {
        lemma_count_nl_le_len(s.drop_last());
    }
}

/// No step of the scanner ever emits the end-of-input marker itself: it is
/// appended exactly once, after the scan.
pub proof fn lemma_scan_step_no_eof(s: Seq<char>, i: int, line: nat)
    requires
        0 <= i <= s.len(),
    ensures
        match scan_step(s, i, line) {
            ScanStep::Emit { token, .. } => token.token_type != TokenType::Eof,
            _ => true,
        },
    decreases s.len() - i,
{
    if 0 <= i < s.len() {
        let c = s[i];
        if c == '/' && i + 1 < s.len() && s[i + 1] == '/' {
            lemma_run_end(s, i + 2, |ch: char| ch != '\n');
            lemma_scan_step_no_eof(s, comment_end(s, i + 2), line);
        } else if c == '\n' && !is_punct(c) && !is_pairable(c) {
            lemma_scan_step_no_eof(s, i + 1, line + 1);
        } else if (c == ' ' || c == '\r' || c == '\t') && !is_punct(c) && !is_pairable(c) {
            lemma_scan_step_no_eof(s, i + 1, line);
        }
    }
}

/// What one call of `Scanner::scan_token` reports: a token with the position
/// and line at which scanning resumes, the end of the input, or the fault
/// that halted the scan.
pub enum Scanned {
    Token { token: Token, next: usize, line: usize },
    End { line: usize },
    Fault { error: LexError },
}

/// The scanner: it owns the source text and recognizes its lexemes.
pub struct Scanner {
    source: std::string::String,
}

impl View for Scanner {
    type V = Seq<char>;

    closed spec fn view(&self) -> Seq<char> {
        self.source@
    }
}

/// An executable check for `is_digit`.
fn is_digit_char(c: char) -> (b: bool)
    ensures
        b == is_digit(c),
{
    let u = c as u32;
    48 <= u && u <= 57
}

/// The reserved word a lexeme spells, and `Identifier` where it spells none.
fn keyword_or_identifier(lexeme: &std::string::String) -> (t: TokenType)
    ensures
        t == keyword_kind(lexeme@),
{
    if *lexeme == String::from_str("and") {
        TokenType::And
    } else if *lexeme == String::from_str("class") {
        TokenType::Class
    } else if *lexeme == String::from_str("else") {
        TokenType::Else
    } else if *lexeme == String::from_str("false") {
        TokenType::False
    } else if *lexeme == String::from_str("fun") {
        TokenType::Fun
    } else if *lexeme == String::from_str("for") {
        TokenType::For
    } else if *lexeme == String::from_str("if") {
        TokenType::If
    } else if *lexeme == String::from_str("nil") {
        TokenType::Nil
    } else if *lexeme == String::from_str("or") {
        TokenType::Or
    } else if *lexeme == String::from_str("print") {
        TokenType::Print
    } else if *lexeme == String::from_str("return") {
        TokenType::Return
    } else if *lexeme == String::from_str("super") {
        TokenType::Super
    } else if *lexeme == String::from_str("this") {
        TokenType::This
    } else if *lexeme == String::from_str("true") {
        TokenType::True
    } else if *lexeme == String::from_str("var") {
        TokenType::Var
    } else if *lexeme == String::from_str("while") {
        TokenType::While
    } else {
        TokenType::Identifier
    }
}

impl Scanner {
    pub fn new(source: std::string::String) -> (s: Self)
        ensures
            s@ == source@,
    {
        Scanner { source }
    }

    /// A token whose lexeme is the source text from `start` to `end`.
    fn make_token(&self, token_type: TokenType, start: usize, end: usize, line: usize) -> (t: Token)
        requires
            start <= end <= self@.len(),
        ensures
            t@ == tokv(token_type, self@.subrange(start as int, end as int), line as nat),
    {
        let lexeme = String::from_str(self.source.as_str().substring_char(start, end));
        Token::new(token_type, lexeme, Option::None, line)
    }

    /// A one- or two-character operator token: the two-character kind when
    /// the character after `start` is `expected`, the one-character kind
    /// otherwise. Returns the token and the position after it.
    fn match_token(
        &self,
        expected: char,
        if_match: TokenType,
        if_not: TokenType,
        start: usize,
        line: usize,
    ) -> (r: (Token, usize))
        requires
            start < self@.len(),
        ensures
            start < r.1 <= self@.len(),
            if start + 1 < self@.len() && self@[start as int + 1] == expected {
                r.0@ == tokv(if_match, self@.subrange(start as int, start as int + 2), line as nat)
                    && r.1 == start + 2
            } else {
                r.0@ == tokv(if_not, self@.subrange(start as int, start as int + 1), line as nat)
                    && r.1 == start + 1
            },
    {
        let n = self.source.as_str().unicode_len();
        if start + 1 < n {
            let c2 = self.source.as_str().get_char(start + 1);
            if c2 == expected {
                return (self.make_token(if_match, start, start + 2, line), start + 2);
            }
        }
        (self.make_token(if_not, start, start + 1, line), start + 1)
    }

    /// The identifier or reserved word starting at `start`: the maximal
    /// alphanumeric run, classified against the reserved words. Returns the
    /// token and the position after the run.
    fn identifier(&self, start: usize, line: usize) -> (r: (Token, usize))
        requires
            start < self@.len(),
        ensures
            ({
                let j = word_end(self@, start as int + 1);
                &&& r.1 == j
                &&& start < r.1 <= self@.len()
                &&& r.0@ == tokv(
                    keyword_kind(self@.subrange(start as int, j)),
                    self@.subrange(start as int, j),
                    line as nat,
                )
            }),
    {
        let ghost sv = self@;
        let n = self.source.as_str().unicode_len();
        let mut j = start + 1;
        while j < n
            invariant
                self@ == sv,
                n == sv.len(),
                start + 1 <= j <= n,
                run_end(sv, start as int + 1, |c: char| alnum(c)) == run_end(
                    sv,
                    j as int,
                    |c: char| alnum(c),
                ),
            ensures
                start + 1 <= j <= n,
                run_end(sv, start as int + 1, |c: char| alnum(c)) == j,
            decreases n - j,
        {
            let c = self.source.as_str().get_char(j);
            if !is_alphanumeric_char(c) {
                proof {
                    assert(run_end(sv, j as int, |c: char| alnum(c)) == j);
                }
                break ;
            }
            j += 1;
        }
        proof {
            lemma_run_end(sv, start as int + 1, |c: char| alnum(c));
            assert(word_end(sv, start as int + 1) == j);
        }
        let lexeme = String::from_str(self.source.as_str().substring_char(start, j));
        let token_type = keyword_or_identifier(&lexeme);
        (Token::new(token_type, lexeme, Option::None, line), j)
    }

    /// The number starting at `start`: the maximal run of ASCII digits.
    /// Returns the token and the position after the run.
    fn number(&self, start: usize, line: usize) -> (r: (Token, usize))
        requires
            start < self@.len(),
        ensures
            ({
                let j = number_end(self@, start as int + 1);
                &&& r.1 == j
                &&& start < r.1 <= self@.len()
                &&& r.0@ == tokv(TokenType::Number, self@.subrange(start as int, j), line as nat)
            }),
    {
        let ghost sv = self@;
        let n = self.source.as_str().unicode_len();
        let mut j = start + 1;
        while j < n
            invariant
                self@ == sv,
                n == sv.len(),
                start + 1 <= j <= n,
                run_end(sv, start as int + 1, |c: char| is_digit(c)) == run_end(
                    sv,
                    j as int,
                    |c: char| is_digit(c),
                ),
            ensures
                start + 1 <= j <= n,
                run_end(sv, start as int + 1, |c: char| is_digit(c)) == j,
            decreases n - j,
        {
            let c = self.source.as_str().get_char(j);
            if !is_digit_char(c) {
                proof {
                    assert(run_end(sv, j as int, |c: char| is_digit(c)) == j);
                }
                break ;
            }
            j += 1;
        }
        proof {
            lemma_run_end(sv, start as int + 1, |c: char| is_digit(c));
            assert(number_end(sv, start as int + 1) == j);
        }
        (self.make_token(TokenType::Number, start, j, line), j)
    }

    /// The string literal whose opening quote stands at `start`: its lexeme
    /// is the text up to the closing quote or the end of the input, quotes
    /// excluded, and embedded newlines advance the line counter. Returns the
    /// token, the position after the literal, and the new line.
    fn string(&self, start: usize, line: usize) -> (r: (Token, usize, usize))
        requires
            start < self@.len(),
            self@[start as int] == '"',
            line as int + self@.len() - start <= usize::MAX as int,
        ensures
            ({
                let close = string_close(self@, start as int + 1);
                let lex = self@.subrange(start as int + 1, close);
                &&& r.0@ == tokv(TokenType::String, lex, (line + count_nl(lex)) as nat)
                &&& r.1 as int == (if close < self@.len() {
                    close + 1
                } else {
                    self@.len() as int
                })
                &&& r.2 as int == line + count_nl(lex)
                &&& start < r.1 <= self@.len()
            }),
    {
        let ghost sv = self@;
        let n = self.source.as_str().unicode_len();
        let mut j = start + 1;
        let mut cur = line;
        while j < n
            invariant
                self@ == sv,
                n == sv.len(),
                start + 1 <= j <= n,
                line <= cur,
                cur - line <= j - start - 1,
                line as int + sv.len() - start <= usize::MAX as int,
                run_end(sv, start as int + 1, |c: char| c != '"') == run_end(
                    sv,
                    j as int,
                    |c: char| c != '"',
                ),
                cur as int == line + count_nl(sv.subrange(start as int + 1, j as int)),
            ensures
                start + 1 <= j <= n,
                run_end(sv, start as int + 1, |c: char| c != '"') == j,
                cur as int == line + count_nl(sv.subrange(start as int + 1, j as int)),
            decreases n - j,
        {
            let c = self.source.as_str().get_char(j);
            if c == '"' {
                proof {
                    assert(run_end(sv, j as int, |c: char| c != '"') == j);
                }
                break ;
            }
            proof {
                let pre = sv.subrange(start as int + 1, j as int);
                let post = sv.subrange(start as int + 1, j as int + 1);
                assert(post.drop_last() =~= pre);
                assert(post.last() == sv[j as int]);
                assert(count_nl(post) == count_nl(pre) + (if sv[j as int] == '\n' {
                    1nat
                } else {
                    0nat
                }));
            }
            if c == '\n' {
                cur += 1;
            }
            j += 1;
        }
        proof {
            lemma_run_end(sv, start as int + 1, |c: char| c != '"');
            assert(string_close(sv, start as int + 1) == j);
        }
        let lexeme = String::from_str(self.source.as_str().substring_char(start + 1, j));
        let next = if j < n {
            j + 1
        } else {
            n
        };
        (Token::new(TokenType::String, lexeme, Option::None, cur), next, cur)
    }

    /// One step of the scan from position `start` on line `line`: skips
    /// whitespace, newlines and line comments, then reports the next token,
    /// the end of the input, or the unrecognized character met.
    pub fn scan_token(&self, start: usize, line: usize) -> (r: Scanned)
        requires
            start <= self@.len(),
            1 <= line,
            line as int + self@.len() - start <= usize::MAX as int,
        ensures
            (match r {
                Scanned::Token { token, next, line: l2 } => scan_step(
                    self@,
                    start as int,
                    line as nat,
                ) == (ScanStep::Emit { token: token@, next: next as int, line: l2 as nat })
                    && start < next <= self@.len() && line <= l2 && l2 - line <= next - start,
                Scanned::End { line: l2 } => scan_step(self@, start as int, line as nat)
                    == (ScanStep::Done { line: l2 as nat }) && line <= l2 && l2 as int - line
                    <= self@.len() - start,
                Scanned::Fault { error } => scan_step(self@, start as int, line as nat)
                    == (ScanStep::Halt { line: error.line as nat, ch: error.ch }) && line
                    <= error.line && error.line as int - line <= self@.len() - start,
            }),
    {
        let ghost sv = self@;
        let n = self.source.as_str().unicode_len();
        let mut i = start;
        let mut cur = line;
        while i < n
            invariant
                self@ == sv,
                n == sv.len(),
                start <= i <= n,
                line <= cur,
                cur - line <= i - start,
                line as int + sv.len() - start <= usize::MAX as int,
                scan_step(sv, start as int, line as nat) == scan_step(sv, i as int, cur as nat),
            decreases n - i,
        {
            let c = self.source.as_str().get_char(i);
            if c == '(' || c == ')' || c == '{' || c == '}' || c == ',' || c == '.' || c == '-' || c
                == '+' || c == ';' || c == '*' {
                let token_type = if c == '(' {
                    TokenType::LeftParen
                } else if c == ')' {
                    TokenType::RightParen
                } else if c == '{' {
                    TokenType::LeftBrace
                } else if c == '}' {
                    TokenType::RightBrace
                } else if c == ',' {
                    TokenType::Comma
                } else if c == '.' {
                    TokenType::Dot
                } else if c == '-' {
                    TokenType::Minus
                } else if c == '+' {
                    TokenType::Plus
                } else if c == ';' {
                    TokenType::Semicolon
                } else {
                    TokenType::Star
                };
                let token = self.make_token(token_type, i, i + 1, cur);
                proof {
                    assert(sv.subrange(i as int, i as int + 1) =~= seq![c]);
                }
                return Scanned::Token { token, next: i + 1, line: cur };
            } else if c == '!' || c == '=' || c == '<' || c == '>' {
                let (token, next) = if c == '!' {
                    self.match_token('=', TokenType::BangEqual, TokenType::Bang, i, cur)
                } else if c == '=' {
                    self.match_token('=', TokenType::EqualEqual, TokenType::Equal, i, cur)
                } else if c == '<' {
                    self.match_token('=', TokenType::LessEqual, TokenType::Less, i, cur)
                } else {
                    self.match_token('=', TokenType::GreaterEqual, TokenType::Greater, i, cur)
                };
                proof {
                    assert(sv.subrange(i as int, i as int + 1) =~= seq![c]);
                    if i as int + 1 < sv.len() && sv[i as int + 1] == '=' {
                        assert(sv.subrange(i as int, i as int + 2) =~= seq![c, '=']);
                    }
                }
                return Scanned::Token { token, next, line: cur };
            } else if c == '/' {
                if i + 1 < n && self.source.as_str().get_char(i + 1) == '/' {
                    let mut j = i + 2;
                    while j < n
                        invariant
                            self@ == sv,
                            n == sv.len(),
                            i + 2 <= j <= n,
                            run_end(sv, i as int + 2, |ch: char| ch != '\n') == run_end(
                                sv,
                                j as int,
                                |ch: char| ch != '\n',
                            ),
                        ensures
                            i + 2 <= j <= n,
                            run_end(sv, i as int + 2, |ch: char| ch != '\n') == j,
                        decreases n - j,
                    {
                        let c2 = self.source.as_str().get_char(j);
                        if c2 == '\n' {
                            proof {
                                assert(run_end(sv, j as int, |ch: char| ch != '\n') == j);
                            }
                            break ;
                        }
                        j += 1;
                    }
                    proof {
                        lemma_run_end(sv, i as int + 2, |ch: char| ch != '\n');
                        assert(comment_end(sv, i as int + 2) == j);
                    }
                    i = j;
                } else {
                    let token = self.make_token(TokenType::Slash, i, i + 1, cur);
                    proof {
                        assert(sv.subrange(i as int, i as int + 1) =~= seq![c]);
                    }
                    return Scanned::Token { token, next: i + 1, line: cur };
                }
            } else if c == '\n' {
                i += 1;
                cur += 1;
            } else if c == ' ' || c == '\r' || c == '\t' {
                i += 1;
            } else if c == '"' {
                let (token, next, l2) = self.string(i, cur);
                proof {
                    lemma_run_end(sv, i as int + 1, |ch: char| ch != '"');
                    lemma_count_nl_le_len(
                        sv.subrange(i as int + 1, string_close(sv, i as int + 1)),
                    );
                }
                return Scanned::Token { token, next, line: l2 };
            } else if is_alphabetic_char(c) {
                let (token, next) = self.identifier(i, cur);
                return Scanned::Token { token, next, line: cur };
            } else if is_digit_char(c) {
                let (token, next) = self.number(i, cur);
                return Scanned::Token { token, next, line: cur };
            } else {
                return Scanned::Fault { error: LexError { line: cur, ch: c } };
            }
        }
        Scanned::End { line: cur }
    }

    /// The whole scan: one token per lexeme, in source order, stopping at the
    /// first unrecognized character, which is reported as the fault; the
    /// end-of-input marker is appended exactly once, with the final line, and
    /// no other token is such a marker.
    pub fn scan_tokens(&self) -> (r: (Vec<Token>, Option<LexError>))
        requires
            self@.len() < usize::MAX,
        ensures
            ({
                let out = scan_from(self@, 0, 1);
                &&& token_views(r.0@) == out.tokens.push(eof_token(out.end_line))
                &&& r.0@.len() == out.tokens.len() + 1
                &&& (match r.1 {
                    Option::Some(e) => out.error == Option::Some((e.line as nat, e.ch)),
                    Option::None => out.error is None,
                })
                &&& r.0@[r.0@.len() - 1].token_type == TokenType::Eof
                &&& (forall|k: int|
                    0 <= k < r.0@.len() - 1 ==> #[trigger] r.0@[k].token_type != TokenType::Eof)
            }),
    {
        let ghost sv = self@;
        let n = self.source.as_str().unicode_len();
        let mut tokens: Vec<Token> = Vec::new();
        let mut err: Option<LexError> = Option::None;
        let mut i: usize = 0;
        let mut line: usize = 1;
        while i < n
            invariant_except_break
                self@ == sv,
                n == sv.len(),
                n < usize::MAX,
                0 <= i <= n,
                1 <= line,
                line - 1 <= i,
                err is None,
                scan_from(sv, 0, 1) == out_cat(
                    token_views(tokens@),
                    scan_from(sv, i as int, line as nat),
                ),
            ensures
                self@ == sv,
                ({
                    let out = scan_from(sv, 0, 1);
                    &&& out.tokens == token_views(tokens@)
                    &&& out.end_line == line as nat
                    &&& (match err {
                        Option::Some(e) => out.error == Option::Some((e.line as nat, e.ch)),
                        Option::None => out.error is None,
                    })
                }),
            decreases n - i,
        {
            match self.scan_token(i, line) {
                Scanned::Token { token, next, line: l2 } => {
                    proof {
                        let rest = scan_from(sv, next as int, l2 as nat);
                        assert(clip(next as int, i as int + 1, sv.len() as int) == next as int);
                        assert(scan_from(sv, i as int, line as nat) == out_cat(
                            seq![token@],
                            rest,
                        ));
                        assert(token_views(tokens@.push(token)) =~= token_views(tokens@).push(
                            token@,
                        ));
                        assert(token_views(tokens@) + (seq![token@] + rest.tokens)
                            =~= token_views(tokens@.push(token)) + rest.tokens);
                        assert(scan_from(sv, 0, 1) == out_cat(
                            token_views(tokens@.push(token)),
                            rest,
                        ));
                    }
                    tokens.push(token);
                    i = next;
                    line = l2;
                },
                Scanned::End { line: l2 } => {
                    proof {
                        assert(scan_from(sv, i as int, line as nat) == (ScanOut {
                            tokens: Seq::empty(),
                            error: Option::None,
                            end_line: l2 as nat,
                        }));
                        assert(token_views(tokens@) + Seq::<TokenView>::empty() =~= token_views(
                            tokens@,
                        ));
                    }
                    line = l2;
                    break ;
                },
                Scanned::Fault { error } => {
                    proof {
                        assert(scan_from(sv, i as int, line as nat) == (ScanOut {
                            tokens: Seq::empty(),
                            error: Option::Some((error.line as nat, error.ch)),
                            end_line: error.line as nat,
                        }));
                        assert(token_views(tokens@) + Seq::<TokenView>::empty() =~= token_views(
                            tokens@,
                        ));
                    }
                    err = Option::Some(error);
                    line = error.line;
                    break ;
                },
            }
        }
        proof {
            lemma_scan_from_no_eof(sv, 0, 1);
        }
        let eof = Token::new(TokenType::Eof, String::new(), Option::None, line);
        let ghost out = scan_from(sv, 0, 1);
        tokens.push(eof);
        proof {
            assert(token_views(tokens@) =~= out.tokens.push(eof_token(out.end_line)));
            assert forall|k: int| 0 <= k < tokens@.len() - 1 implies #[trigger] tokens@[k].token_type
                != TokenType::Eof by {
                assert(token_views(tokens@)[k] == tokens@[k]@);
                assert(token_views(tokens@)[k] == out.tokens[k]);
                assert(scan_from(sv, 0, 1).tokens[k].token_type != TokenType::Eof);
            }
            assert(tokens@[tokens@.len() - 1].token_type == TokenType::Eof);
        }
        (tokens, err)
    }
}

/// No token of a scan is the end-of-input marker.
pub proof fn lemma_scan_from_no_eof(s: Seq<char>, i: int, line: nat)
    requires
        0 <= i <= s.len(),
    ensures
        forall|k: int|
            0 <= k < scan_from(s, i, line).tokens.len() ==> #[trigger] scan_from(
                s,
                i,
                line,
            ).tokens[k].token_type != TokenType::Eof,
    decreases s.len() - i,
{
    lemma_scan_step_no_eof(s, i, line);
    match scan_step(s, i, line) {
        ScanStep::Emit { token, next, line: l } => {
            lemma_scan_from_no_eof(s, clip(next, i + 1, s.len() as int), l);
        },
        _ => {},
    }
}

/// Every source made only of the single-character punctuation lexemes scans
/// without fault to one token per character, in source order, each of the
/// kind matching its character, all on the starting line.
pub proof fn lemma_scan_punctuation(s: Seq<char>, i: int, line: nat)
    requires
        0 <= i <= s.len(),
        forall|k: int| 0 <= k < s.len() ==> is_punct(#[trigger] s[k]),
    ensures
        ({
            let out = scan_from(s, i, line);
            &&& out.error is None
            &&& out.end_line == line
            &&& out.tokens.len() == s.len() - i
            &&& (forall|k: int|
                0 <= k < out.tokens.len() ==> #[trigger] out.tokens[k] == tokv(
                    punct_kind(s[i + k]),
                    seq![s[i + k]],
                    line,
                ))
        }),
    decreases s.len() - i,
{
    if i < s.len() {
        lemma_scan_punctuation(s, i + 1, line);
        let out = scan_from(s, i, line);
        let rest = scan_from(s, i + 1, line);
        assert(out.tokens == seq![tokv(punct_kind(s[i]), seq![s[i]], line)] + rest.tokens);
        assert forall|k: int| 0 <= k < out.tokens.len() implies #[trigger] out.tokens[k] == tokv(
            punct_kind(s[i + k]),
            seq![s[i + k]],
            line,
        ) by {
            if k > 0 {
                assert(out.tokens[k] == rest.tokens[k - 1]);
            }
        }
    }
}

/// A source that is one alphanumeric run starting on an alphabetic character
/// scans without fault to exactly one token, whose lexeme is the whole
/// source: a reserved word's lexeme gets its dedicated kind and every other
/// lexeme is an identifier, as `keyword_kind` classifies it.
pub proof fn lemma_scan_word(s: Seq<char>)
    requires
        s.len() > 0,
        alpha(s[0]),
        !is_punct(s[0]),
        !is_pairable(s[0]),
        s[0] != '/',
        s[0] != '\n',
        s[0] != ' ',
        s[0] != '\r',
        s[0] != '\t',
        s[0] != '"',
        forall|k: int| 1 <= k < s.len() ==> alnum(#[trigger] s[k]),
    ensures
        ({
            let out = scan_from(s, 0, 1);
            &&& out.error is None
            &&& out.end_line == 1
            &&& out.tokens =~= seq![tokv(keyword_kind(s), s, 1)]
        }),
{
    lemma_run_end(s, 1, |c: char| alnum(c));
    let j = run_end(s, 1, |c: char| alnum(c));
    assert(j == s.len());
    assert(word_end(s, 1) == s.len());
    assert(s.subrange(0, s.len() as int) =~= s);
    assert(scan_step(s, 0, 1) == (ScanStep::Emit {
        token: tokv(keyword_kind(s), s, 1),
        next: s.len() as int,
        line: 1nat,
    }));
    assert(clip(s.len() as int, 1, s.len() as int) == s.len());
    assert(scan_from(s, s.len() as int, 1) == (ScanOut {
        tokens: Seq::<TokenView>::empty(),
        error: Option::<(nat, char)>::None,
        end_line: 1nat,
    }));
    assert(scan_from(s, 0, 1).tokens == seq![tokv(keyword_kind(s), s, 1)]
        + Seq::<TokenView>::empty());
}

} // verus!
