//! The token model: the closed set of lexical categories and the immutable
//! record produced for each lexeme the scanner recognizes.
use vstd::prelude::*;

verus! {

/// The closed set of lexical categories. Equality is variant identity.
#[derive(Clone, Copy, Debug, PartialEq, Eq, Structural)]
pub enum TokenType {
    // Single-character punctuation.
    LeftParen,
    RightParen,
    LeftBrace,
    RightBrace,
    Comma,
    Dot,
    Minus,
    Plus,
    Semicolon,
    Star,
    // One- or two-character operators.
    Bang,
    BangEqual,
    Equal,
    EqualEqual,
    Greater,
    GreaterEqual,
    Less,
    LessEqual,
    Slash,
    // Literals.
    Identifier,
    String,
    Number,
    // Reserved words.
    And,
    Class,
    Else,
    False,
    Fun,
    For,
    If,
    Nil,
    Or,
    Print,
    Return,
    Super,
    This,
    True,
    Var,
    While,
    // End-of-input marker.
    Eof,
}

/// One lexeme recognized in the source: its category, the exact substring
/// matched, an optional decoded literal value (never populated by the current
/// scanner, which retains the raw lexeme instead), and the 1-based source
/// line on which scanning of the lexeme finished.
#[derive(Debug)]
pub struct Token {
    pub token_type: TokenType,
    pub lexeme: std::string::String,
    pub literal: Option<std::string::String>,
    pub line: usize,
}

/// The mathematical shadow of a `Token`: the lexeme and literal as character
/// sequences, the line as an unbounded natural.
pub struct TokenView {
    pub token_type: TokenType,
    pub lexeme: Seq<char>,
    pub literal: Option<Seq<char>>,
    pub line: nat,
}

impl View for Token {
    type V = TokenView;

    open spec fn view(&self) -> TokenView {
        TokenView {
            token_type: self.token_type,
            lexeme: self.lexeme@,
            literal: match self.literal {
                Option::Some(s) => Option::Some(s@),
                Option::None => Option::None,
            },
            line: self.line as nat,
        }
    }
}

impl Clone for Token {
    /// A copy of the token; its view is the same.
    fn clone(&self) -> (r: Self)
        ensures
            r@ == self@,
            r.token_type == self.token_type,
            r.line == self.line,
    {
        Token {
            token_type: self.token_type,
            lexeme: self.lexeme.clone(),
            literal: match &self.literal {
                Option::Some(s) => Option::Some(s.clone()),
                Option::None => Option::None,
            },
            line: self.line,
        }
    }
}

impl Token {
    pub fn new(
        token_type: TokenType,
        lexeme: std::string::String,
        literal: Option<std::string::String>,
        line: usize,
    ) -> (t: Token)
        ensures
            t.token_type == token_type,
            t@.lexeme == lexeme@,
            t@.literal == (match literal {
                Option::Some(s) => Option::Some(s@),
                Option::None => Option::<Seq<char>>::None,
            }),
            t.line == line,
    {
        Token { token_type, lexeme, literal, line }
    }
}

} // verus!
