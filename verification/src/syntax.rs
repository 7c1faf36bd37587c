//! Syntactic categories of the concrete syntax tree: composite node kinds,
//! leaf token kinds, and the mapping between lexer tokens and tree leaves.

use vstd::prelude::*;

use crate::token::TokenKind;

verus! {

/// The language marker type; it carries the raw encoding of syntax kinds.
#[derive(Clone, Copy, PartialEq, Eq, Structural, Debug, Hash)]
pub struct CitrineLanguage;

/// The syntax kind of a node or leaf of the concrete syntax tree.
#[derive(Clone, Copy, PartialEq, Eq, Structural, Debug, Hash)]
pub enum SyntaxKind {
    // Root
    Root,
    // Forms
    List,
    Vector,
    MapLit,
    SetLit,
    // Literals
    StringLit,
    NumberLit,
    CharacterLit,
    KeywordLit,
    SymbolLit,
    // Reader macros
    Quote,
    Backtick,
    Unquote,
    UnquoteSplicing,
    Deref,
    Meta,
    Tag,
    Discard,
    // Special
    Comment,
    Whitespace,
    Error,
    // Tokens (leaf nodes)
    LeftParen,
    RightParen,
    LeftBracket,
    RightBracket,
    LeftBrace,
    RightBrace,
    String,
    Number,
    Character,
    Symbol,
    Keyword,
    QuoteToken,
    BacktickToken,
    TildeToken,
    TildeAtToken,
    CaretToken,
    HashToken,
    HashLeftBraceToken,
    CommaToken,
    CommentToken,
    WhitespaceToken,
    ErrorToken,
    Eof,
}

/// The raw number of a syntax kind: its position in the declaration order.
pub open spec fn raw_of(kind: SyntaxKind) -> u16 {
    match kind {
        SyntaxKind::Root => 0,
        SyntaxKind::List => 1,
        SyntaxKind::Vector => 2,
        SyntaxKind::MapLit => 3,
        SyntaxKind::SetLit => 4,
        SyntaxKind::StringLit => 5,
        SyntaxKind::NumberLit => 6,
        SyntaxKind::CharacterLit => 7,
        SyntaxKind::KeywordLit => 8,
        SyntaxKind::SymbolLit => 9,
        SyntaxKind::Quote => 10,
        SyntaxKind::Backtick => 11,
        SyntaxKind::Unquote => 12,
        SyntaxKind::UnquoteSplicing => 13,
        SyntaxKind::Deref => 14,
        SyntaxKind::Meta => 15,
        SyntaxKind::Tag => 16,
        SyntaxKind::Discard => 17,
        SyntaxKind::Comment => 18,
        SyntaxKind::Whitespace => 19,
        SyntaxKind::Error => 20,
        SyntaxKind::LeftParen => 21,
        SyntaxKind::RightParen => 22,
        SyntaxKind::LeftBracket => 23,
        SyntaxKind::RightBracket => 24,
        SyntaxKind::LeftBrace => 25,
        SyntaxKind::RightBrace => 26,
        SyntaxKind::String => 27,
        SyntaxKind::Number => 28,
        SyntaxKind::Character => 29,
        SyntaxKind::Symbol => 30,
        SyntaxKind::Keyword => 31,
        SyntaxKind::QuoteToken => 32,
        SyntaxKind::BacktickToken => 33,
        SyntaxKind::TildeToken => 34,
        SyntaxKind::TildeAtToken => 35,
        SyntaxKind::CaretToken => 36,
        SyntaxKind::HashToken => 37,
        SyntaxKind::HashLeftBraceToken => 38,
        SyntaxKind::CommaToken => 39,
        SyntaxKind::CommentToken => 40,
        SyntaxKind::WhitespaceToken => 41,
        SyntaxKind::ErrorToken => 42,
        SyntaxKind::Eof => 43,
    }
}

/// The leaf kinds: those that stand for a single token in the tree.
pub open spec fn is_token_kind(kind: SyntaxKind) -> bool {
    raw_of(kind) >= 21
}

/// The trivia kinds: whitespace and comment leaves, which the reader skips.
pub open spec fn is_trivia_kind(kind: SyntaxKind) -> bool {
    kind == SyntaxKind::WhitespaceToken || kind == SyntaxKind::CommentToken
}

impl SyntaxKind {
    /// Returns true if this syntax kind is a token.
    pub fn is_token(&self) -> (b: bool)
        ensures
            b == is_token_kind(*self),
    {
        match self {
            SyntaxKind::LeftParen => true,
            SyntaxKind::RightParen => true,
            SyntaxKind::LeftBracket => true,
            SyntaxKind::RightBracket => true,
            SyntaxKind::LeftBrace => true,
            SyntaxKind::RightBrace => true,
            SyntaxKind::String => true,
            SyntaxKind::Number => true,
            SyntaxKind::Character => true,
            SyntaxKind::Symbol => true,
            SyntaxKind::Keyword => true,
            SyntaxKind::QuoteToken => true,
            SyntaxKind::BacktickToken => true,
            SyntaxKind::TildeToken => true,
            SyntaxKind::TildeAtToken => true,
            SyntaxKind::CaretToken => true,
            SyntaxKind::HashToken => true,
            SyntaxKind::HashLeftBraceToken => true,
            SyntaxKind::CommaToken => true,
            SyntaxKind::CommentToken => true,
            SyntaxKind::WhitespaceToken => true,
            SyntaxKind::ErrorToken => true,
            SyntaxKind::Eof => true,
            _ => false,
        }
    }

    /// Returns true if this syntax kind is trivia (whitespace or comment).
    pub fn is_trivia(&self) -> (b: bool)
        ensures
            b == is_trivia_kind(*self),
    {
        match self {
            SyntaxKind::WhitespaceToken => true,
            SyntaxKind::CommentToken => true,
            _ => false,
        }
    }
}

impl CitrineLanguage {
    /// Recovers a syntax kind from its raw number.
    pub fn kind_from_raw(raw: u16) -> (kind: SyntaxKind)
        requires
            raw <= raw_of(SyntaxKind::Eof),
        ensures
            raw_of(kind) == raw,
    {
        if raw == 0 {
            SyntaxKind::Root
        } else if raw == 1 {
            SyntaxKind::List
        } else if raw == 2 {
            SyntaxKind::Vector
        } else if raw == 3 {
            SyntaxKind::MapLit
        } else if raw == 4 {
            SyntaxKind::SetLit
        } else if raw == 5 {
            SyntaxKind::StringLit
        } else if raw == 6 {
            SyntaxKind::NumberLit
        } else if raw == 7 {
            SyntaxKind::CharacterLit
        } else if raw == 8 {
            SyntaxKind::KeywordLit
        } else if raw == 9 {
            SyntaxKind::SymbolLit
        } else if raw == 10 {
            SyntaxKind::Quote
        } else if raw == 11 {
            SyntaxKind::Backtick
        } else if raw == 12 {
            SyntaxKind::Unquote
        } else if raw == 13 {
            SyntaxKind::UnquoteSplicing
        } else if raw == 14 {
            SyntaxKind::Deref
        } else if raw == 15 {
            SyntaxKind::Meta
        } else if raw == 16 {
            SyntaxKind::Tag
        } else if raw == 17 {
            SyntaxKind::Discard
        } else if raw == 18 {
            SyntaxKind::Comment
        } else if raw == 19 {
            SyntaxKind::Whitespace
        } else if raw == 20 {
            SyntaxKind::Error
        } else if raw == 21 {
            SyntaxKind::LeftParen
        } else if raw == 22 {
            SyntaxKind::RightParen
        } else if raw == 23 {
            SyntaxKind::LeftBracket
        } else if raw == 24 {
            SyntaxKind::RightBracket
        } else if raw == 25 {
            SyntaxKind::LeftBrace
        } else if raw == 26 {
            SyntaxKind::RightBrace
        } else if raw == 27 {
            SyntaxKind::String
        } else if raw == 28 {
            SyntaxKind::Number
        } else if raw == 29 {
            SyntaxKind::Character
        } else if raw == 30 {
            SyntaxKind::Symbol
        } else if raw == 31 {
            SyntaxKind::Keyword
        } else if raw == 32 {
            SyntaxKind::QuoteToken
        } else if raw == 33 {
            SyntaxKind::BacktickToken
        } else if raw == 34 {
            SyntaxKind::TildeToken
        } else if raw == 35 {
            SyntaxKind::TildeAtToken
        } else if raw == 36 {
            SyntaxKind::CaretToken
        } else if raw == 37 {
            SyntaxKind::HashToken
        } else if raw == 38 {
            SyntaxKind::HashLeftBraceToken
        } else if raw == 39 {
            SyntaxKind::CommaToken
        } else if raw == 40 {
            SyntaxKind::CommentToken
        } else if raw == 41 {
            SyntaxKind::WhitespaceToken
        } else if raw == 42 {
            SyntaxKind::ErrorToken
        } else {
            SyntaxKind::Eof
        }
    }

    /// The raw number of a syntax kind.
    pub fn kind_to_raw(kind: SyntaxKind) -> (raw: u16)
        ensures
            raw == raw_of(kind),
    {
        match kind {
            SyntaxKind::Root => 0,
            SyntaxKind::List => 1,
            SyntaxKind::Vector => 2,
            SyntaxKind::MapLit => 3,
            SyntaxKind::SetLit => 4,
            SyntaxKind::StringLit => 5,
            SyntaxKind::NumberLit => 6,
            SyntaxKind::CharacterLit => 7,
            SyntaxKind::KeywordLit => 8,
            SyntaxKind::SymbolLit => 9,
            SyntaxKind::Quote => 10,
            SyntaxKind::Backtick => 11,
            SyntaxKind::Unquote => 12,
            SyntaxKind::UnquoteSplicing => 13,
            SyntaxKind::Deref => 14,
            SyntaxKind::Meta => 15,
            SyntaxKind::Tag => 16,
            SyntaxKind::Discard => 17,
            SyntaxKind::Comment => 18,
            SyntaxKind::Whitespace => 19,
            SyntaxKind::Error => 20,
            SyntaxKind::LeftParen => 21,
            SyntaxKind::RightParen => 22,
            SyntaxKind::LeftBracket => 23,
            SyntaxKind::RightBracket => 24,
            SyntaxKind::LeftBrace => 25,
            SyntaxKind::RightBrace => 26,
            SyntaxKind::String => 27,
            SyntaxKind::Number => 28,
            SyntaxKind::Character => 29,
            SyntaxKind::Symbol => 30,
            SyntaxKind::Keyword => 31,
            SyntaxKind::QuoteToken => 32,
            SyntaxKind::BacktickToken => 33,
            SyntaxKind::TildeToken => 34,
            SyntaxKind::TildeAtToken => 35,
            SyntaxKind::CaretToken => 36,
            SyntaxKind::HashToken => 37,
            SyntaxKind::HashLeftBraceToken => 38,
            SyntaxKind::CommaToken => 39,
            SyntaxKind::CommentToken => 40,
            SyntaxKind::WhitespaceToken => 41,
            SyntaxKind::ErrorToken => 42,
            SyntaxKind::Eof => 43,
        }
    }
}

/// Raw numbers are one-to-one with syntax kinds, so the two conversions
/// invert each other.
pub proof fn lemma_raw_roundtrip(a: SyntaxKind, b: SyntaxKind)
    requires
        raw_of(a) == raw_of(b),
    ensures
        a == b,
{
}

/// The syntax kind of a leaf built from the given lexer token kind.
pub open spec fn syntax_kind_of_token(kind: TokenKind) -> SyntaxKind {
    match kind {
        TokenKind::LeftParen => SyntaxKind::LeftParen,
        TokenKind::RightParen => SyntaxKind::RightParen,
        TokenKind::LeftBracket => SyntaxKind::LeftBracket,
        TokenKind::RightBracket => SyntaxKind::RightBracket,
        TokenKind::LeftBrace => SyntaxKind::LeftBrace,
        TokenKind::RightBrace => SyntaxKind::RightBrace,
        TokenKind::String => SyntaxKind::String,
        TokenKind::Number => SyntaxKind::Number,
        TokenKind::Character => SyntaxKind::Character,
        TokenKind::Symbol => SyntaxKind::Symbol,
        TokenKind::Keyword => SyntaxKind::Keyword,
        TokenKind::Quote => SyntaxKind::QuoteToken,
        TokenKind::Backtick => SyntaxKind::BacktickToken,
        TokenKind::Tilde => SyntaxKind::TildeToken,
        TokenKind::TildeAt => SyntaxKind::TildeAtToken,
        TokenKind::Caret => SyntaxKind::CaretToken,
        TokenKind::Hash => SyntaxKind::HashToken,
        TokenKind::HashLeftBrace => SyntaxKind::HashLeftBraceToken,
        TokenKind::Comma => SyntaxKind::CommaToken,
        TokenKind::Whitespace => SyntaxKind::WhitespaceToken,
        TokenKind::Comment => SyntaxKind::CommentToken,
        TokenKind::Error => SyntaxKind::ErrorToken,
        TokenKind::Eof => SyntaxKind::Eof,
    }
}

/// Converts a token kind to a syntax kind.
pub fn token_to_syntax_kind(kind: TokenKind) -> (r: SyntaxKind)
    ensures
        r == syntax_kind_of_token(kind),
{
    match kind {
        TokenKind::LeftParen => SyntaxKind::LeftParen,
        TokenKind::RightParen => SyntaxKind::RightParen,
        TokenKind::LeftBracket => SyntaxKind::LeftBracket,
        TokenKind::RightBracket => SyntaxKind::RightBracket,
        TokenKind::LeftBrace => SyntaxKind::LeftBrace,
        TokenKind::RightBrace => SyntaxKind::RightBrace,
        TokenKind::String => SyntaxKind::String,
        TokenKind::Number => SyntaxKind::Number,
        TokenKind::Character => SyntaxKind::Character,
        TokenKind::Symbol => SyntaxKind::Symbol,
        TokenKind::Keyword => SyntaxKind::Keyword,
        TokenKind::Quote => SyntaxKind::QuoteToken,
        TokenKind::Backtick => SyntaxKind::BacktickToken,
        TokenKind::Tilde => SyntaxKind::TildeToken,
        TokenKind::TildeAt => SyntaxKind::TildeAtToken,
        TokenKind::Caret => SyntaxKind::CaretToken,
        TokenKind::Hash => SyntaxKind::HashToken,
        TokenKind::HashLeftBrace => SyntaxKind::HashLeftBraceToken,
        TokenKind::Comma => SyntaxKind::CommaToken,
        TokenKind::Whitespace => SyntaxKind::WhitespaceToken,
        TokenKind::Comment => SyntaxKind::CommentToken,
        TokenKind::Error => SyntaxKind::ErrorToken,
        TokenKind::Eof => SyntaxKind::Eof,
    }
}

} // verus!
