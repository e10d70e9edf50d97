//! Tokens as the parser receives them.
use vstd::prelude::*;

use crate::source::Position;

verus! {

/// The kinds of token of l9. A number literal holds the IEEE-754 binary64 bit
/// pattern of its value.
#[derive(Debug, Clone, PartialEq)]
pub enum Token {
    Print,
    Let,
    If,
    Else,
    While,
    Identifier(String),
    Number(u64),
    True,
    False,
    Plus,
    Minus,
    Star,
    Slash,
    Bang,
    Equal,
    EqualEqual,
    BangEqual,
    Less,
    LessEqual,
    Greater,
    GreaterEqual,
    LParen,
    RParen,
    LeftCurly,
    RightCurly,
    Semicolon,
    EndOfFile,
}

/// A token together with the position where it starts.
#[derive(Debug, Clone, PartialEq)]
pub struct SourceToken {
    pub kind: Token,
    pub source: Position,
}

/// The token that stands for the end of the input.
pub open spec fn end_of_file() -> SourceToken {
    SourceToken { kind: Token::EndOfFile, source: Position::origin() }
}

impl SourceToken {
    pub fn new(kind: Token, source: Position) -> (t: SourceToken)
        ensures
            t == (SourceToken { kind, source }),
    {
        SourceToken { kind, source }
    }

    pub fn kind(&self) -> (k: &Token)
        ensures
            *k == self.kind,
    {
        &self.kind
    }

    pub fn source(&self) -> (p: &Position)
        ensures
            *p == self.source,
    {
        &self.source
    }
}

impl From<Token> for SourceToken {
    fn from(kind: Token) -> (t: SourceToken) {
        SourceToken { kind, source: Position { line: 0, column: 0 } }
    }
}

impl vstd::std_specs::convert::FromSpecImpl<Token> for SourceToken {
    open spec fn obeys_from_spec() -> bool {
        true
    }

    open spec fn from_spec(kind: Token) -> SourceToken {
        SourceToken { kind, source: Position::origin() }
    }
}

} // verus!
