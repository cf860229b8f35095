//! The tokens that the lexer produces and the parser reads.
use vstd::prelude::*;

verus! {

/// The reserved words of the language.
#[derive(Debug, Clone, Copy, PartialEq, Eq, Structural)]
pub enum Keyword {
    Let,
    Fn,
    If,
    Else,
    While,
    For,
    Return,
    Break,
    Continue,
    True,
    False,
    Null,
    Import,
    Print,
}

/// One token of source text. A number token keeps the digits it was read from.
#[derive(Debug, Clone, PartialEq)]
pub enum Token {
    Illegal(char),
    Keyword(Keyword),
    Identifier(String),
    Number(String),
    String(String),
    Plus,
    PlusPlus,
    PlusEqual,
    Minus,
    MinusMinus,
    MinusEqual,
    Star,
    StarEqual,
    Slash,
    SlashEqual,
    Percent,
    PercentEqual,
    Equal,
    EqualEqual,
    Bang,
    BangEqual,
    Less,
    LessEqual,
    Greater,
    GreaterEqual,
    AndAnd,
    OrOr,
    LeftParen,
    RightParen,
    LeftBrace,
    RightBrace,
    LeftBracket,
    RightBracket,
    Comma,
    Dot,
    Colon,
    Semicolon,
    EOF,
}

/// The mathematical model of a token: the same variants, with texts as character sequences.
pub enum SpecToken {
    Illegal(char),
    Keyword(Keyword),
    Identifier(Seq<char>),
    Number(Seq<char>),
    String(Seq<char>),
    Plus,
    PlusPlus,
    PlusEqual,
    Minus,
    MinusMinus,
    MinusEqual,
    Star,
    StarEqual,
    Slash,
    SlashEqual,
    Percent,
    PercentEqual,
    Equal,
    EqualEqual,
    Bang,
    BangEqual,
    Less,
    LessEqual,
    Greater,
    GreaterEqual,
    AndAnd,
    OrOr,
    LeftParen,
    RightParen,
    LeftBrace,
    RightBrace,
    LeftBracket,
    RightBracket,
    Comma,
    Dot,
    Colon,
    Semicolon,
    EOF,
}

impl View for Token {
    type V = SpecToken;

    open spec fn view(&self) -> SpecToken {
        match self {
            Token::Illegal(c) => SpecToken::Illegal(*c),
            Token::Keyword(k) => SpecToken::Keyword(*k),
            Token::Identifier(s) => SpecToken::Identifier(s@),
            Token::Number(s) => SpecToken::Number(s@),
            Token::String(s) => SpecToken::String(s@),
            Token::Plus => SpecToken::Plus,
            Token::PlusPlus => SpecToken::PlusPlus,
            Token::PlusEqual => SpecToken::PlusEqual,
            Token::Minus => SpecToken::Minus,
            Token::MinusMinus => SpecToken::MinusMinus,
            Token::MinusEqual => SpecToken::MinusEqual,
            Token::Star => SpecToken::Star,
            Token::StarEqual => SpecToken::StarEqual,
            Token::Slash => SpecToken::Slash,
            Token::SlashEqual => SpecToken::SlashEqual,
            Token::Percent => SpecToken::Percent,
            Token::PercentEqual => SpecToken::PercentEqual,
            Token::Equal => SpecToken::Equal,
            Token::EqualEqual => SpecToken::EqualEqual,
            Token::Bang => SpecToken::Bang,
            Token::BangEqual => SpecToken::BangEqual,
            Token::Less => SpecToken::Less,
            Token::LessEqual => SpecToken::LessEqual,
            Token::Greater => SpecToken::Greater,
            Token::GreaterEqual => SpecToken::GreaterEqual,
            Token::AndAnd => SpecToken::AndAnd,
            Token::OrOr => SpecToken::OrOr,
            Token::LeftParen => SpecToken::LeftParen,
            Token::RightParen => SpecToken::RightParen,
            Token::LeftBrace => SpecToken::LeftBrace,
            Token::RightBrace => SpecToken::RightBrace,
            Token::LeftBracket => SpecToken::LeftBracket,
            Token::RightBracket => SpecToken::RightBracket,
            Token::Comma => SpecToken::Comma,
            Token::Dot => SpecToken::Dot,
            Token::Colon => SpecToken::Colon,
            Token::Semicolon => SpecToken::Semicolon,
            Token::EOF => SpecToken::EOF,
        }
    }
}

} // verus!
