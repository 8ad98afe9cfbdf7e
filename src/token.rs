use vstd::prelude::*;

verus! {

/// Why a scan could not produce tokens.
#[derive(Debug, Clone, Copy, PartialEq, Eq, Structural)]
pub enum Error {
    /// The text to scan could not be obtained.
    File,
    /// A character starts no token.
    Terminal,
    /// The input ended inside a construct that needs more of it.
    EndOfFile,
}

/// The text carried by a payload token.
pub type TokenStr = String;

/// One lexical unit of the language.
#[derive(Debug, PartialEq)]
pub enum Token {
    LeftParen,
    RightParen,
    LeftBrace,
    RightBrace,
    LeftBracket,
    RightBracket,
    Comma,
    Dot,
    Colon,
    Semicolon,

    Slash,
    SlashEqual,
    Star,
    StarEqual,
    Mod,
    Plus,
    PlusPlus,
    PlusEqual,
    Minus,
    MinusMinus,
    MinusEqual,
    Bang,
    BangEqual,
    Equal,
    EqualEqual,
    Greater,
    GreaterEqual,
    Less,
    LessEqual,
    And,

    Identifier(TokenStr),
    String(TokenStr),
    Number(TokenStr),

    End,
}

/// A token as a mathematical value: payloads become character sequences,
/// and every token without a payload stands for itself.
pub enum Lexeme {
    Fixed(Token),
    Identifier(Seq<char>),
    String(Seq<char>),
    Number(Seq<char>),
}

impl View for Token {
    type V = Lexeme;

    open spec fn view(&self) -> Lexeme {
        match self {
            Token::Identifier(s) => Lexeme::Identifier(s@),
            Token::String(s) => Lexeme::String(s@),
            Token::Number(s) => Lexeme::Number(s@),
            _ => Lexeme::Fixed(*self),
        }
    }
}

/// The lexemes of a token sequence, in order.
pub open spec fn lexemes(ts: Seq<Token>) -> Seq<Lexeme> {
    ts.map_values(|t: Token| t@)
}

} // verus!
