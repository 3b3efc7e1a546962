use vstd::prelude::*;
use crate::marker::Marker;
use crate::token::{TScalarStyle, Token, TokenKind, TokenType};

verus! {

/// What a token carries, as a mathematical value: its texts are sequences of characters.
pub enum Lexeme {
    StreamStart,
    StreamEnd,
    VersionDirective(u32, u32),
    TagDirective(Seq<char>, Seq<char>),
    DocumentStart,
    DocumentEnd,
    BlockSequenceStart,
    BlockMappingStart,
    BlockEnd,
    BlockEntry,
    Key,
    Value,
    Scalar(TScalarStyle, Seq<char>),
}

/// What the token carries.
pub open spec fn lexeme_of(t: TokenType) -> Lexeme {
    match t {
        TokenType::StreamStart(_) => Lexeme::StreamStart,
        TokenType::StreamEnd => Lexeme::StreamEnd,
        TokenType::VersionDirective(major, minor) => Lexeme::VersionDirective(major, minor),
        TokenType::TagDirective(handle, prefix) => Lexeme::TagDirective(handle@, prefix@),
        TokenType::DocumentStart => Lexeme::DocumentStart,
        TokenType::DocumentEnd => Lexeme::DocumentEnd,
        TokenType::BlockSequenceStart => Lexeme::BlockSequenceStart,
        TokenType::BlockMappingStart => Lexeme::BlockMappingStart,
        TokenType::BlockEnd => Lexeme::BlockEnd,
        TokenType::BlockEntry => Lexeme::BlockEntry,
        TokenType::Key => Lexeme::Key,
        TokenType::Value => Lexeme::Value,
        TokenType::Scalar(style, text) => Lexeme::Scalar(style, text@),
    }
}

impl Lexeme {
    /// What the token is, without what it carries.
    pub open spec fn kind(&self) -> TokenKind {
        match self {
            Lexeme::StreamStart => TokenKind::StreamStart,
            Lexeme::StreamEnd => TokenKind::StreamEnd,
            Lexeme::VersionDirective(_, _) => TokenKind::VersionDirective,
            Lexeme::TagDirective(_, _) => TokenKind::TagDirective,
            Lexeme::DocumentStart => TokenKind::DocumentStart,
            Lexeme::DocumentEnd => TokenKind::DocumentEnd,
            Lexeme::BlockSequenceStart => TokenKind::BlockSequenceStart,
            Lexeme::BlockMappingStart => TokenKind::BlockMappingStart,
            Lexeme::BlockEnd => TokenKind::BlockEnd,
            Lexeme::BlockEntry => TokenKind::BlockEntry,
            Lexeme::Key => TokenKind::Key,
            Lexeme::Value => TokenKind::Value,
            Lexeme::Scalar(_, _) => TokenKind::Scalar,
        }
    }
}

/// A token as a mathematical value.
pub struct Lex {
    pub mark: Marker,
    pub lexeme: Lexeme,
}

/// The token as a mathematical value.
pub open spec fn lex_of(t: Token) -> Lex {
    Lex { mark: t.0, lexeme: lexeme_of(t.1) }
}

/// The tokens as mathematical values.
pub open spec fn lexes(toks: Seq<Token>) -> Seq<Lex> {
    Seq::new(toks.len(), |i: int| lex_of(toks[i]))
}

} // verus!
