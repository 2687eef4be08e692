//! Tokens: what the lexer hands to the parser.

use vstd::prelude::*;

verus! {

/// The kinds of tokens.
#[derive(Clone, Copy, Debug, PartialEq, Eq, Structural)]
pub enum TokenType {
    // Single-character tokens.
    LeftParen,
    RightParen,
    LeftCurly,
    RightCurly,
    LeftSquare,
    RightSquare,
    Colon,
    Comma,
    Minus,
    Percent,
    Plus,
    Semicolon,
    Slash,
    Star,
    // One- or two-character tokens.
    Bang,
    BangEqual,
    Equal,
    EqualEqual,
    Greater,
    GreaterEqual,
    Less,
    LessEqual,
    // Literals.
    True,
    False,
    String_,
    Number,
    // Keywords.
    And,
    Break,
    Else,
    Func,
    For,
    If,
    Null,
    Or,
    Print,
    Return,
    Var,
    While,
    Identifier,
    Eof,
}

/// A constant written in the source.
///
/// A number is kept as a decimal numeral (digits, and optionally a dot and more
/// digits): the numeral determines the binary64 value, and the host computes it
/// when the literal is evaluated. The lexer keeps the numeral in its shortest
/// form, so that literals of one value are the same literal however they were
/// written: `1`, `1.0` and `01` are all kept as `1`.
#[derive(Debug, PartialEq)]
pub enum Literal {
    Number(String),
    String_(String),
    Bool(bool),
    Null,
}

/// A token.
#[derive(Debug, PartialEq)]
pub struct Token {
    /// The kind of the token.
    pub type_: TokenType,
    /// The piece of source text that the token was made from.
    pub lexeme: String,
    /// The constant that the token stands for; `Null` for a token that is no literal.
    pub literal: Literal,
    /// The line that the lexer counted when it made the token: one more than the
    /// line ends that it had read before the token, outside of string literals.
    /// A line end inside a string literal is not counted.
    pub line: usize,
}

/// What a `Literal` is, as a mathematical value.
pub ghost enum LiteralView {
    Number(Seq<char>),
    String_(Seq<char>),
    Bool(bool),
    Null,
}

/// What a `Token` is, as a mathematical value.
pub ghost struct TokenView {
    pub type_: TokenType,
    pub lexeme: Seq<char>,
    pub literal: LiteralView,
    pub line: usize,
}

impl View for Literal {
    type V = LiteralView;

    open spec fn view(&self) -> LiteralView {
        match self {
            Literal::Number(text) => LiteralView::Number(text@),
            Literal::String_(text) => LiteralView::String_(text@),
            Literal::Bool(b) => LiteralView::Bool(*b),
            Literal::Null => LiteralView::Null,
        }
    }
}

impl View for Token {
    type V = TokenView;

    open spec fn view(&self) -> TokenView {
        TokenView { type_: self.type_, lexeme: self.lexeme@, literal: self.literal@, line: self.line }
    }
}

/// The views of a sequence of tokens.
pub open spec fn tokens_view(tokens: Seq<Token>) -> Seq<TokenView> {
    Seq::new(tokens.len(), |i: int| tokens[i]@)
}

impl Clone for Literal {
    fn clone(&self) -> (r: Literal)
        ensures
            r@ == self@,
    {
        match self {
            Literal::Number(text) => Literal::Number(text.clone()),
            Literal::String_(text) => Literal::String_(text.clone()),
            Literal::Bool(b) => Literal::Bool(*b),
            Literal::Null => Literal::Null,
        }
    }
}

impl Clone for Token {
    fn clone(&self) -> (r: Token)
        ensures
            r@ == self@,
    {
        Token { type_: self.type_, lexeme: self.lexeme.clone(), literal: self.literal.clone(), line: self.line }
    }
}

impl Literal {
    /// Whether two literals are the same constant.
    pub fn same(&self, other: &Literal) -> (r: bool)
        ensures
            r == (self@ == other@),
    {
        match self {
            Literal::Number(a) => match other {
                Literal::Number(b) => *a == *b,
                _ => false,
            },
            Literal::String_(a) => match other {
                Literal::String_(b) => *a == *b,
                _ => false,
            },
            Literal::Bool(a) => match other {
                Literal::Bool(b) => *a == *b,
                _ => false,
            },
            Literal::Null => match other {
                Literal::Null => true,
                _ => false,
            },
        }
    }
}

impl Token {
    /// Whether two tokens agree in kind, lexeme, literal and line.
    pub fn same(&self, other: &Token) -> (r: bool)
        ensures
            r == (self@ == other@),
    {
        self.type_ == other.type_ && self.lexeme == other.lexeme && self.literal.same(&other.literal)
            && self.line == other.line
    }
}

} // verus!
