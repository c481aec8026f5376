//! Tokens of the language.
use vstd::prelude::*;

verus! {

/// The character that the tokenizer reports past the end of its input.
pub const EOF_CHAR: char = '\0';

/// The kind of a token, with the text or value that it carries.
#[derive(Clone, Debug, PartialEq)]
pub enum TokenKind {
    Unknown(String),
    Whitespace,
    Identifier(String),
    Symbol(String),
    Numeric(u128),
    String(String),
    Colon,
    At,
    Equals,
    Semicolon,
    Plus,
    Dot,
    Comma,
    OpenParen,
    CloseParen,
    OpenBracket,
    CloseBracket,
}

/// A token: its kind and the number of bytes of source text it spans.
#[derive(Clone, Debug)]
pub struct Token {
    pub kind: TokenKind,
    pub length: usize,
}

/// The mathematical view of a `TokenKind`: texts become character sequences.
pub enum SpecTokenKind {
    Unknown(Seq<char>),
    Whitespace,
    Identifier(Seq<char>),
    Symbol(Seq<char>),
    Numeric(u128),
    String(Seq<char>),
    Colon,
    At,
    Equals,
    Semicolon,
    Plus,
    Dot,
    Comma,
    OpenParen,
    CloseParen,
    OpenBracket,
    CloseBracket,
}

impl View for TokenKind {
    type V = SpecTokenKind;

    open spec fn view(&self) -> SpecTokenKind {
        match self {
            TokenKind::Unknown(s) => SpecTokenKind::Unknown(s@),
            TokenKind::Whitespace => SpecTokenKind::Whitespace,
            TokenKind::Identifier(s) => SpecTokenKind::Identifier(s@),
            TokenKind::Symbol(s) => SpecTokenKind::Symbol(s@),
            TokenKind::Numeric(n) => SpecTokenKind::Numeric(*n),
            TokenKind::String(s) => SpecTokenKind::String(s@),
            TokenKind::Colon => SpecTokenKind::Colon,
            TokenKind::At => SpecTokenKind::At,
            TokenKind::Equals => SpecTokenKind::Equals,
            TokenKind::Semicolon => SpecTokenKind::Semicolon,
            TokenKind::Plus => SpecTokenKind::Plus,
            TokenKind::Dot => SpecTokenKind::Dot,
            TokenKind::Comma => SpecTokenKind::Comma,
            TokenKind::OpenParen => SpecTokenKind::OpenParen,
            TokenKind::CloseParen => SpecTokenKind::CloseParen,
            TokenKind::OpenBracket => SpecTokenKind::OpenBracket,
            TokenKind::CloseBracket => SpecTokenKind::CloseBracket,
        }
    }
}

} // verus!
