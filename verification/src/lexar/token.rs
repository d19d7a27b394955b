use vstd::prelude::*;

verus! {

/// The kinds of token the lexer produces.
#[derive(Debug, Clone, Copy, PartialEq, Eq, Structural)]
pub enum TokenType {
    // --- Keywords ---
    Let,
    Mut,
    Function,
    Import,
    Struct,
    Enum,
    If,
    Else,
    For,
    In,
    Return,
    Break,
    Continue,
    SomeKeyword,
    Print,
    // --- Literals ---
    Number,
    Float,
    String,
    Boolean,
    // --- Identifier ---
    Identifier,
    // --- Arithmetic ---
    Plus,
    Minus,
    Star,
    Slash,
    Percent,
    // --- Assignment ---
    Eq,
    PlusEq,
    MinusEq,
    StarEq,
    SlashEq,
    PercentEq,
    // --- Comparison ---
    EqEq,
    EqEqEq,
    NotEq,
    NotEqEq,
    Gt,
    Lt,
    GtEq,
    LtEq,
    // --- Logical ---
    Bang,
    And,
    Or,
    AndAnd,
    OrOr,
    // --- Arrows ---
    Arrow,
    FatArrow,
    // --- Delimiters & punctuation ---
    OpenParen,
    CloseParen,
    OpenBrace,
    CloseBrace,
    OpenBracket,
    CloseBracket,
    Comma,
    Semi,
    Dot,
    RangeInc,
    RangeExc,
    Colon,
    At,
    Pound,
    Tilde,
    Question,
    Dollar,
    Underscore,
    /// A character or word the language does not accept.
    Unknown,
}

/// A token: its kind, the source text it stands for, and the 1-based
/// line and column where it starts.
#[derive(Debug, Clone)]
pub struct Token {
    pub kind: TokenType,
    pub value: String,
    pub line: usize,
    pub col: usize,
}

/// The mathematical model of a token.
pub struct TokenModel {
    pub kind: TokenType,
    pub value: Seq<char>,
    pub line: int,
    pub col: int,
}

impl View for Token {
    type V = TokenModel;

    open spec fn view(&self) -> TokenModel {
        TokenModel { kind: self.kind, value: self.value@, line: self.line as int, col: self.col as int }
    }
}

} // verus!
