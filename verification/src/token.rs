use vstd::prelude::*;
use crate::marker::Marker;

verus! {

/// The encoding of the character stream.
#[derive(Clone, Copy, PartialEq, Eq, Debug, Structural)]
pub enum TEncoding {
    Utf8,
}

/// How a scalar was written in the text.
#[derive(Clone, Copy, PartialEq, Eq, Debug, Structural)]
pub enum TScalarStyle {
    Plain,
    SingleQuoted,
    DoubleQuoted,
    Literal,
    Folded,
}

/// What a token is.  `BlockSequenceStart`, `BlockMappingStart` and `BlockEnd`
/// have no text of their own: the scanner makes them up from the indentation.
#[derive(PartialEq, Eq, Debug)]
pub enum TokenType {
    StreamStart(TEncoding),
    StreamEnd,
    /// major, minor
    VersionDirective(u32, u32),
    /// handle, prefix
    TagDirective(String, String),
    DocumentStart,
    DocumentEnd,
    BlockSequenceStart,
    BlockMappingStart,
    BlockEnd,
    BlockEntry,
    Key,
    Value,
    /// style, text
    Scalar(TScalarStyle, String),
}

/// What a token is, without what it carries.
#[derive(Clone, Copy, PartialEq, Eq, Debug, Structural)]
pub enum TokenKind {
    StreamStart,
    StreamEnd,
    VersionDirective,
    TagDirective,
    DocumentStart,
    DocumentEnd,
    BlockSequenceStart,
    BlockMappingStart,
    BlockEnd,
    BlockEntry,
    Key,
    Value,
    Scalar,
}

impl TokenType {
    /// What the token is, without what it carries.
    pub open spec fn spec_kind(&self) -> TokenKind {
        match self {
            TokenType::StreamStart(_) => TokenKind::StreamStart,
            TokenType::StreamEnd => TokenKind::StreamEnd,
            TokenType::VersionDirective(_, _) => TokenKind::VersionDirective,
            TokenType::TagDirective(_, _) => TokenKind::TagDirective,
            TokenType::DocumentStart => TokenKind::DocumentStart,
            TokenType::DocumentEnd => TokenKind::DocumentEnd,
            TokenType::BlockSequenceStart => TokenKind::BlockSequenceStart,
            TokenType::BlockMappingStart => TokenKind::BlockMappingStart,
            TokenType::BlockEnd => TokenKind::BlockEnd,
            TokenType::BlockEntry => TokenKind::BlockEntry,
            TokenType::Key => TokenKind::Key,
            TokenType::Value => TokenKind::Value,
            TokenType::Scalar(_, _) => TokenKind::Scalar,
        }
    }

    /// What the token is, without what it carries.
    #[verifier::when_used_as_spec(spec_kind)]
    pub fn kind(&self) -> (k: TokenKind)
        ensures
            k == self.spec_kind(),
    {
        match self {
            TokenType::StreamStart(_) => TokenKind::StreamStart,
            TokenType::StreamEnd => TokenKind::StreamEnd,
            TokenType::VersionDirective(_, _) => TokenKind::VersionDirective,
            TokenType::TagDirective(_, _) => TokenKind::TagDirective,
            TokenType::DocumentStart => TokenKind::DocumentStart,
            TokenType::DocumentEnd => TokenKind::DocumentEnd,
            TokenType::BlockSequenceStart => TokenKind::BlockSequenceStart,
            TokenType::BlockMappingStart => TokenKind::BlockMappingStart,
            TokenType::BlockEnd => TokenKind::BlockEnd,
            TokenType::BlockEntry => TokenKind::BlockEntry,
            TokenType::Key => TokenKind::Key,
            TokenType::Value => TokenKind::Value,
            TokenType::Scalar(_, _) => TokenKind::Scalar,
        }
    }
}

/// A token with the position at which it starts.
#[derive(PartialEq, Eq, Debug)]
pub struct Token(pub Marker, pub TokenType);

impl Clone for TokenType {
    fn clone(&self) -> (t: TokenType)
        ensures
            t == *self,
    {
        match self {
            TokenType::StreamStart(e) => TokenType::StreamStart(*e),
            TokenType::StreamEnd => TokenType::StreamEnd,
            TokenType::VersionDirective(major, minor) => TokenType::VersionDirective(
                *major,
                *minor,
            ),
            TokenType::TagDirective(handle, prefix) => TokenType::TagDirective(
                handle.clone(),
                prefix.clone(),
            ),
            TokenType::DocumentStart => TokenType::DocumentStart,
            TokenType::DocumentEnd => TokenType::DocumentEnd,
            TokenType::BlockSequenceStart => TokenType::BlockSequenceStart,
            TokenType::BlockMappingStart => TokenType::BlockMappingStart,
            TokenType::BlockEnd => TokenType::BlockEnd,
            TokenType::BlockEntry => TokenType::BlockEntry,
            TokenType::Key => TokenType::Key,
            TokenType::Value => TokenType::Value,
            TokenType::Scalar(style, text) => TokenType::Scalar(*style, text.clone()),
        }
    }
}

impl Clone for Token {
    fn clone(&self) -> (t: Token)
        ensures
            t == *self,
    {
        Token(self.0, self.1.clone())
    }
}

} // verus!
