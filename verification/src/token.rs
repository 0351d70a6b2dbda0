//! Tokens handed from the scanner to the compiler.

use vstd::prelude::*;

verus! {

/// The kind of a token.
#[derive(Clone, Copy, PartialEq, Eq, Debug, Structural)]
pub enum TokenType {
    LeftParen,
    RightParen,
    LeftBrace,
    RightBrace,
    Comma,
    Dot,
    Minus,
    Plus,
    Semicolon,
    Slash,
    Star,
    Bang,
    BangEqual,
    Equal,
    EqualEqual,
    Greater,
    GreaterEqual,
    Less,
    LessEqual,
    Identifier,
    Strings,
    Number,
    And,
    Class,
    Else,
    False,
    For,
    Fun,
    If,
    Nil,
    Or,
    Print,
    Return,
    Super,
    This,
    True,
    Var,
    While,
    Error,
    Eof,
}

/// A token: its kind, the span of source bytes it covers, and its 1-based line.
#[derive(Clone, Copy, PartialEq, Eq, Debug, Structural)]
pub struct Token {
    pub t_type: TokenType,
    pub start: usize,
    pub length: usize,
    pub line: usize,
}

impl Token {
    /// The bytes of `source` that the token covers.
    pub open spec fn lexeme(&self, source: Seq<u8>) -> Seq<u8> {
        source.subrange(self.start as int, self.start + self.length)
    }

    /// The token's span lies inside a source of `len` bytes.
    pub open spec fn within(&self, len: int) -> bool {
        self.start + self.length <= len
    }
}

} // verus!
