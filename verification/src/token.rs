//! Lexical tokens: a kind tag, the exact source slice, and its half-open
//! character range within the input.

use vstd::prelude::*;

verus! {

/// The kind of a lexical token.
#[derive(Clone, Copy, PartialEq, Eq, Structural, Debug, Hash)]
pub enum TokenKind {
    // Delimiters
    LeftParen,
    RightParen,
    LeftBracket,
    RightBracket,
    LeftBrace,
    RightBrace,
    // Literals
    String,
    Number,
    Character,
    // Identifiers
    Symbol,
    Keyword,
    // Reader macros
    Quote,
    Backtick,
    Tilde,
    TildeAt,
    Caret,
    Hash,
    HashLeftBrace,
    // Operators
    Comma,
    // Whitespace and comments
    Whitespace,
    Comment,
    // Special
    Error,
    Eof,
}

/// A token: its kind, the exact text it covers, and the half-open range
/// `[start, end)` of character positions it occupies in the source.
#[derive(Clone, Debug)]
pub struct Token {
    /// The kind of token.
    pub kind: TokenKind,
    /// The text of the token, exactly as it appears in the source.
    pub text: String,
    /// The start position of the token in the source.
    pub start: usize,
    /// The end position of the token in the source.
    pub end: usize,
}

impl Token {
    /// A token is well formed when its text is exactly as long as the range
    /// it claims to cover.
    pub open spec fn wf(self) -> bool {
        &&& self.start <= self.end
        &&& self.text@.len() == self.end - self.start
    }

    /// Creates a new token.
    pub fn new(kind: TokenKind, text: String, start: usize, end: usize) -> (t: Token)
        ensures
            t.kind == kind,
            t.text == text,
            t.start == start,
            t.end == end,
    {
        Token { kind, text, start, end }
    }

    /// Returns the length of the token.
    pub fn len(&self) -> (n: usize)
        requires
            self.wf(),
        ensures
            n == self.end - self.start,
            n == self.text@.len(),
    {
        self.end - self.start
    }

    /// Returns whether the token is empty.
    pub fn is_empty(&self) -> (b: bool)
        requires
            self.wf(),
        ensures
            b == (self.text@.len() == 0),
    {
        self.len() == 0
    }
}

} // verus!
