//! The lexer: a single left-to-right scan over the characters of the source,
//! producing a flat token stream that fully partitions the input. The lexer
//! never fails; malformed input becomes `Error` tokens that still advance the
//! position, and whitespace and comments become trivia tokens so that every
//! character of the source is attributed to exactly one token.

use vstd::prelude::*;
use vstd::string::StrSliceExecFns;
use vstd::string::StringExecFns;

use crate::token::Token;
use crate::token::TokenKind;

verus! {

/// Errors that can occur during lexing. The lexer itself never returns these
/// (malformed input becomes `Error` tokens); they name the ways a token can
/// be malformed for callers that want to report them.
#[derive(Debug, Clone)]
pub enum LexerError {
    UnexpectedCharacter(char),
    UnterminatedString,
    InvalidEscapeSequence(String),
    InvalidNumberFormat(String),
    InvalidCharacterLiteral(String),
}

/// Whitespace characters: the ASCII separators the scanner skips over.
pub open spec fn is_ws_char(c: char) -> bool {
    c == ' ' || c == '\t' || c == '\n' || c == '\r' || c == '\u{b}' || c == '\u{c}'
}

/// Decimal digits.
pub open spec fn is_digit_char(c: char) -> bool {
    '0' <= c && c <= '9'
}

/// Characters that can start a symbol.
pub open spec fn is_symbol_start_char(c: char) -> bool {
    ||| ('a' <= c && c <= 'z')
    ||| ('A' <= c && c <= 'Z')
    ||| c == '!' || c == '?' || c == '-' || c == '+' || c == '<' || c == '>'
    ||| c == '=' || c == '$' || c == '*' || c == '%' || c == '_' || c == '/'
}

/// Characters that can continue a symbol: a symbol-start character or a digit.
pub open spec fn is_symbol_char_spec(c: char) -> bool {
    is_symbol_start_char(c) || is_digit_char(c)
}

/// Hexadecimal digits.
pub open spec fn is_hex_digit_char(c: char) -> bool {
    is_digit_char(c) || ('a' <= c && c <= 'f') || ('A' <= c && c <= 'F')
}

/// Whether the name `name` occurs in `s` starting at `p`.
pub open spec fn named_char_at(s: Seq<char>, p: int, name: Seq<char>) -> bool {
    p + name.len() <= s.len() && s.subrange(p, p + name.len()) == name
}

/// Whether a hexadecimal digit stands at `q`.
pub open spec fn hex_at(s: Seq<char>, q: int) -> bool {
    0 <= q < s.len() && is_hex_digit_char(s[q])
}

/// How many hexadecimal digits, up to four, run from `q`.
pub open spec fn hex_run4(s: Seq<char>, q: int) -> int {
    if !hex_at(s, q) {
        0
    } else if !hex_at(s, q + 1) {
        1
    } else if !hex_at(s, q + 2) {
        2
    } else if !hex_at(s, q + 3) {
        3
    } else {
        4
    }
}

/// The position where a run of hexadecimal digits beginning at `from` ends.
pub open spec fn hex_run_end(s: Seq<char>, from: int) -> int
    decreases s.len() - from,
{
    if 0 <= from < s.len() && is_hex_digit_char(s[from]) {
        hex_run_end(s, from + 1)
    } else {
        from
    }
}

/// Binary digits.
pub open spec fn is_bin_digit_char(c: char) -> bool {
    c == '0' || c == '1'
}

/// The position where a run of binary digits beginning at `from` ends.
pub open spec fn bin_run_end(s: Seq<char>, from: int) -> int
    decreases s.len() - from,
{
    if 0 <= from < s.len() && is_bin_digit_char(s[from]) {
        bin_run_end(s, from + 1)
    } else {
        from
    }
}

/// The kind of a character token whose backslash stands just before `p`:
/// a whole character name, a `u` escape with four hexadecimal digits, or
/// any single character; a short escape or a bare backslash at the end of
/// the input is an error.
pub open spec fn char_kind_after(s: Seq<char>, p: int) -> TokenKind {
    if named_char_at(s, p, "newline"@) || named_char_at(s, p, "return"@) || named_char_at(
        s,
        p,
        "space"@,
    ) || named_char_at(s, p, "tab"@) || named_char_at(s, p, "formfeed"@) || named_char_at(
        s,
        p,
        "backspace"@,
    ) {
        TokenKind::Character
    } else if p < s.len() && s[p] == 'u' {
        if hex_run4(s, p + 1) == 4 {
            TokenKind::Character
        } else {
            TokenKind::Error
        }
    } else if p < s.len() {
        TokenKind::Character
    } else {
        TokenKind::Error
    }
}

/// Where a character token whose backslash stands just before `p` ends:
/// the longest character name wins over the single-character reading.
pub open spec fn char_end_after(s: Seq<char>, p: int) -> int {
    if named_char_at(s, p, "newline"@) {
        p + 7
    } else if named_char_at(s, p, "return"@) {
        p + 6
    } else if named_char_at(s, p, "space"@) {
        p + 5
    } else if named_char_at(s, p, "tab"@) {
        p + 3
    } else if named_char_at(s, p, "formfeed"@) {
        p + 8
    } else if named_char_at(s, p, "backspace"@) {
        p + 9
    } else if p < s.len() && s[p] == 'u' {
        p + 1 + hex_run4(s, p + 1)
    } else if p < s.len() {
        p + 1
    } else {
        p
    }
}

/// The token kinds that a single character determines on its own.
pub open spec fn single_char_kind(c: char) -> Option<TokenKind> {
    if c == '(' {
        Some(TokenKind::LeftParen)
    } else if c == ')' {
        Some(TokenKind::RightParen)
    } else if c == '[' {
        Some(TokenKind::LeftBracket)
    } else if c == ']' {
        Some(TokenKind::RightBracket)
    } else if c == '{' {
        Some(TokenKind::LeftBrace)
    } else if c == '}' {
        Some(TokenKind::RightBrace)
    } else if c == '\'' {
        Some(TokenKind::Quote)
    } else if c == '`' {
        Some(TokenKind::Backtick)
    } else if c == '^' {
        Some(TokenKind::Caret)
    } else {
        None
    }
}

/// The position where a run of decimal digits beginning at `from` ends.
pub open spec fn digit_run_end(s: Seq<char>, from: int) -> int
    decreases s.len() - from,
{
    if 0 <= from < s.len() && is_digit_char(s[from]) {
        digit_run_end(s, from + 1)
    } else {
        from
    }
}

/// Characters that may legally follow the integer part of a number token and
/// extend it: fraction, exponent, radix, suffix and ratio markers.
pub open spec fn is_number_cont_char(c: char) -> bool {
    ||| c == '.' || c == '/' || c == 'e' || c == 'E'
    ||| c == 'n' || c == 'N' || c == 'l' || c == 'L'
    ||| c == 'x' || c == 'X' || c == 'b' || c == 'B'
}

/// A maximal run of symbol characters covering `[from, end)`.
pub open spec fn symbol_run(s: Seq<char>, from: int, end: int) -> bool {
    &&& from <= end <= s.len()
    &&& forall|i: int| from <= i < end ==> is_symbol_char_spec(#[trigger] s[i])
    &&& (end == s.len() || !is_symbol_char_spec(s[end]))
}

/// What the scanner guarantees of a non-`Eof` token it produced at position
/// `t.start` of the source `s`: for the kinds whose extent the grammar fixes
/// locally, the exact kind and end position; for strings, characters and
/// numbers, the kind up to `Error`.
#[verifier::opaque]
pub open spec fn token_scan_ok(s: Seq<char>, t: Token) -> bool {
    let start = t.start as int;
    let end = t.end as int;
    let c = s[start];
    &&& 0 <= start < s.len()
    &&& start < end <= s.len()
    &&& if single_char_kind(c) is Some {
        t.kind == single_char_kind(c)->0 && end == start + 1
    } else if c == ',' || c == '~' {
        if start + 1 < s.len() && s[start + 1] == '@' {
            t.kind == TokenKind::TildeAt && end == start + 2
        } else {
            t.kind == (if c == ',' {
                TokenKind::Comma
            } else {
                TokenKind::Tilde
            }) && end == start + 1
        }
    } else if c == '#' {
        if start + 1 < s.len() && s[start + 1] == '{' {
            t.kind == TokenKind::HashLeftBrace && end == start + 2
        } else if start + 1 < s.len() && s[start + 1] == '_' {
            t.kind == TokenKind::Hash && end == start + 2
        } else {
            t.kind == TokenKind::Hash && end == start + 1
        }
    } else if c == ';' {
        &&& t.kind == TokenKind::Comment
        &&& forall|i: int| start <= i < end ==> s[i] != '\n'
        &&& (end == s.len() || s[end] == '\n')
    } else if is_ws_char(c) {
        &&& t.kind == TokenKind::Whitespace
        &&& forall|i: int| start <= i < end ==> is_ws_char(#[trigger] s[i])
        &&& (end == s.len() || !is_ws_char(s[end]))
    } else if c == '"' {
        &&& (t.kind == TokenKind::String || t.kind == TokenKind::Error)
        &&& (t.kind == TokenKind::Error ==> end == s.len())
    } else if c == '\\' {
        t.kind == char_kind_after(s, start + 1) && end == char_end_after(s, start + 1)
    } else if is_digit_char(c) || (c == '-' && start + 1 < s.len() && is_digit_char(
        s[start + 1],
    )) {
        let d0 = if c == '-' {
            start + 1
        } else {
            start
        };
        let e = digit_run_end(s, d0);
        &&& (t.kind == TokenKind::Number || t.kind == TokenKind::Error)
        &&& ((e == s.len() || !is_number_cont_char(s[e])) ==> t.kind == TokenKind::Number && end
            == e)
        &&& (start + 1 < s.len() && s[start] == '0' && (s[start + 1] == 'x' || s[start + 1]
            == 'X') ==> end == hex_run_end(s, start + 2) && t.kind == (if end > start + 2 {
            TokenKind::Number
        } else {
            TokenKind::Error
        }))
        &&& (start + 1 < s.len() && s[start] == '0' && (s[start + 1] == 'b' || s[start + 1]
            == 'B') ==> end == bin_run_end(s, start + 2) && t.kind == (if end > start + 2 {
            TokenKind::Number
        } else {
            TokenKind::Error
        }))
    } else if is_symbol_start_char(c) {
        t.kind == TokenKind::Symbol && symbol_run(s, start + 1, end)
    } else if c == ':' {
        t.kind == TokenKind::Keyword && symbol_run(s, start + 1, end)
    } else {
        t.kind == TokenKind::Error && end == start + 1
    }
}

/// The in-order concatenation of the texts of a token sequence.
pub open spec fn texts_concat(ts: Seq<Token>) -> Seq<char>
    decreases ts.len(),
{
    if ts.len() == 0 {
        Seq::empty()
    } else {
        ts[0].text@ + texts_concat(ts.drop_first())
    }
}

/// Appending a token appends its text to the concatenation.
pub proof fn lemma_texts_concat_push(ts: Seq<Token>, t: Token)
    ensures
        texts_concat(ts.push(t)) == texts_concat(ts) + t.text@,
    decreases ts.len(),
{
    if ts.len() == 0 {
        assert(ts.push(t).drop_first() =~= Seq::<Token>::empty());
        assert(texts_concat(Seq::<Token>::empty()) =~= Seq::<char>::empty());
        assert(ts.push(t)[0] == t);
        assert(texts_concat(ts.push(t)) =~= texts_concat(ts) + t.text@);
    } else {
        assert(ts.push(t).drop_first() =~= ts.drop_first().push(t));
        lemma_texts_concat_push(ts.drop_first(), t);
        assert(texts_concat(ts.push(t)) =~= texts_concat(ts) + t.text@);
    }
}

/// Checks if a character can start a symbol.
fn is_symbol_start(c: char) -> (b: bool)
    ensures
        b == is_symbol_start_char(c),
{
    ('a' <= c && c <= 'z') || ('A' <= c && c <= 'Z') || c == '!' || c == '?' || c == '-' || c == '+'
        || c == '<' || c == '>' || c == '=' || c == '$' || c == '*' || c == '%' || c == '_' || c
        == '/'
}

/// Checks if a character can be part of a symbol.
fn is_symbol_char(c: char) -> (b: bool)
    ensures
        b == is_symbol_char_spec(c),
{
    is_symbol_start(c) || ('0' <= c && c <= '9')
}

/// Checks if a character is a decimal digit.
fn is_digit(c: char) -> (b: bool)
    ensures
        b == is_digit_char(c),
{
    '0' <= c && c <= '9'
}

/// Checks if a character is a hexadecimal digit.
fn is_hex_digit(c: char) -> (b: bool)
    ensures
        b == is_hex_digit_char(c),
{
    is_digit(c) || ('a' <= c && c <= 'f') || ('A' <= c && c <= 'F')
}

/// Checks if a character is whitespace.
fn is_whitespace(c: char) -> (b: bool)
    ensures
        b == is_ws_char(c),
{
    c == ' ' || c == '\t' || c == '\n' || c == '\r' || c == '\u{b}' || c == '\u{c}'
}

/// A lexer: the source text and the current scan position, counted in
/// characters.
pub struct Lexer<'a> {
    /// The input source code.
    input: &'a str,
    /// The current position in the input.
    position: usize,
}

impl<'a> Lexer<'a> {
    /// The lexer never moves past the end of the input.
    pub closed spec fn wf(self) -> bool {
        self.position <= self.input@.len()
    }

    /// The view of the source under scan.
    pub closed spec fn src(self) -> Seq<char> {
        self.input@
    }

    /// The current position.
    pub closed spec fn pos(self) -> int {
        self.position as int
    }

    /// Creates a new lexer for the given input.
    pub fn new(input: &'a str) -> (l: Lexer<'a>)
        ensures
            l.wf(),
            l.src() == input@,
            l.pos() == 0,
    {
        Lexer { input, position: 0 }
    }

    /// Returns the next character without consuming it.
    fn peek(&self) -> (c: Option<char>)
        requires
            self.wf(),
        ensures
            self.pos() < self.src().len() ==> c == Some(self.src()[self.pos()]),
            self.pos() == self.src().len() ==> c is None,
    {
        if self.position < self.input.unicode_len() {
            Some(self.input.get_char(self.position))
        } else {
            None
        }
    }

    /// Consumes and returns the next character.
    fn bump(&mut self) -> (c: Option<char>)
        requires
            old(self).wf(),
        ensures
            final(self).wf(),
            final(self).src() == old(self).src(),
            old(self).pos() < old(self).src().len() ==> c == Some(
                old(self).src()[old(self).pos()],
            ) && final(self).pos() == old(self).pos() + 1,
            old(self).pos() == old(self).src().len() ==> c is None && final(self).pos() == old(
                self,
            ).pos(),
    {
        if self.position < self.input.unicode_len() {
            let c = self.input.get_char(self.position);
            self.position = self.position + 1;
            Some(c)
        } else {
            None
        }
    }

    /// Checks if the next character matches the given character.
    fn peek_is(&self, c: char) -> (b: bool)
        requires
            self.wf(),
        ensures
            b == (self.pos() < self.src().len() && self.src()[self.pos()] == c),
    {
        match self.peek() {
            Some(p) => p == c,
            None => false,
        }
    }

    /// Consumes a maximal run of whitespace characters.
    fn lex_whitespace(&mut self) -> (kind: TokenKind)
        requires
            old(self).wf(),
        ensures
            final(self).wf(),
            final(self).src() == old(self).src(),
            kind == TokenKind::Whitespace,
            old(self).pos() <= final(self).pos(),
            forall|i: int|
                old(self).pos() <= i < final(self).pos() ==> is_ws_char(
                    #[trigger] final(self).src()[i],
                ),
            final(self).pos() == final(self).src().len() || !is_ws_char(
                final(self).src()[final(self).pos()],
            ),
    {
        loop
            invariant
                self.wf(),
                self.src() == old(self).src(),
                old(self).pos() <= self.pos(),
                forall|i: int|
                    old(self).pos() <= i < self.pos() ==> is_ws_char(#[trigger] self.src()[i]),
            ensures
                self.pos() == self.src().len() || !is_ws_char(self.src()[self.pos()]),
            decreases self.src().len() - self.pos(),
        {
            match self.peek() {
                Some(c) => {
                    if is_whitespace(c) {
                        self.bump();
                    } else {
                        break ;
                    }
                },
                None => {
                    break ;
                },
            }
        }
        TokenKind::Whitespace
    }

    /// Consumes a comment: everything up to, but not including, the next
    /// newline.
    fn lex_comment(&mut self) -> (kind: TokenKind)
        requires
            old(self).wf(),
        ensures
            final(self).wf(),
            final(self).src() == old(self).src(),
            kind == TokenKind::Comment,
            old(self).pos() <= final(self).pos(),
            forall|i: int|
                old(self).pos() <= i < final(self).pos() ==> #[trigger] final(self).src()[i]
                    != '\n',
            final(self).pos() == final(self).src().len() || final(self).src()[final(self).pos()]
                == '\n',
    {
        loop
            invariant
                self.wf(),
                self.src() == old(self).src(),
                old(self).pos() <= self.pos(),
                forall|i: int| old(self).pos() <= i < self.pos() ==> #[trigger] self.src()[i] != '\n',
            ensures
                self.pos() == self.src().len() || self.src()[self.pos()] == '\n',
            decreases self.src().len() - self.pos(),
        {
            match self.peek() {
                Some(c) => {
                    if c == '\n' {
                        break ;
                    }
                    self.bump();
                },
                None => {
                    break ;
                },
            }
        }
        TokenKind::Comment
    }

    /// Scans a string literal body after its opening quote, tracking
    /// backslash escapes. An unterminated string reaches the end of the
    /// input and is an error.
    fn lex_string(&mut self) -> (kind: TokenKind)
        requires
            old(self).wf(),
        ensures
            final(self).wf(),
            final(self).src() == old(self).src(),
            kind == TokenKind::String || kind == TokenKind::Error,
            old(self).pos() <= final(self).pos(),
            kind == TokenKind::Error ==> final(self).pos() == final(self).src().len(),
    {
        let mut escaped = false;
        loop
            invariant
                self.wf(),
                self.src() == old(self).src(),
                old(self).pos() <= self.pos(),
            ensures
                self.pos() == self.src().len(),
            decreases self.src().len() - self.pos(),
        {
            match self.peek() {
                Some(c) => {
                    if escaped {
                        self.bump();
                        escaped = false;
                    } else if c == '\\' {
                        self.bump();
                        escaped = true;
                    } else if c == '"' {
                        self.bump();
                        return TokenKind::String;
                    } else {
                        self.bump();
                    }
                },
                None => {
                    break ;
                },
            }
        }
        TokenKind::Error
    }

    /// Checks whether the literal `lit` occurs in the input starting at the
    /// current position.
    fn matches_here(&self, lit: &str) -> (b: bool)
        requires
            self.wf(),
        ensures
            b == (self.pos() + lit@.len() <= self.src().len() && self.src().subrange(
                self.pos(),
                self.pos() + lit@.len(),
            ) == lit@),
    {
        let n = lit.unicode_len();
        let ulen = self.input.unicode_len();
        if n > ulen - self.position {
            return false;
        }
        let mut i: usize = 0;
        while i < n
            invariant
                self.wf(),
                0 <= i <= n,
                n == lit@.len(),
                ulen == self.src().len(),
                self.pos() + n <= ulen,
                forall|j: int| 0 <= j < i ==> self.src()[self.pos() + j] == lit@[j],
            decreases n - i,
        {
            if self.input.get_char(self.position + i) != lit.get_char(i) {
                assert(self.src().subrange(self.pos(), self.pos() + lit@.len())[i as int]
                    != lit@[i as int]);
                return false;
            }
            i = i + 1;
        }
        assert(self.src().subrange(self.pos(), self.pos() + lit@.len()) =~= lit@);
        true
    }

    /// Advances the position by `n` characters.
    fn advance(&mut self, n: usize)
        requires
            old(self).wf(),
            old(self).pos() + n <= old(self).src().len(),
        ensures
            final(self).wf(),
            final(self).src() == old(self).src(),
            final(self).pos() == old(self).pos() + n,
    {
        let ulen = self.input.unicode_len();
        self.position = self.position + n;
    }

    /// Scans a character literal after its backslash: one character, greedily
    /// extended to the longest matching named character, or a `uXXXX`
    /// Unicode escape.
    #[verifier::rlimit(100)]
    #[verifier::spinoff_prover]
    fn lex_character(&mut self) -> (kind: TokenKind)
        requires
            old(self).wf(),
        ensures
            final(self).wf(),
            final(self).src() == old(self).src(),
            kind == TokenKind::Character || kind == TokenKind::Error,
            old(self).pos() <= final(self).pos(),
            kind == char_kind_after(old(self).src(), old(self).pos() as int),
            final(self).pos() == char_end_after(old(self).src(), old(self).pos() as int),
    {
        proof {
            reveal_strlit("newline");
            reveal_strlit("return");
            reveal_strlit("space");
            reveal_strlit("tab");
            reveal_strlit("formfeed");
            reveal_strlit("backspace");
        }
        if self.matches_here("newline") {
            self.advance(7);
            return TokenKind::Character;
        }
        if self.matches_here("return") {
            self.advance(6);
            return TokenKind::Character;
        }
        if self.matches_here("space") {
            self.advance(5);
            return TokenKind::Character;
        }
        if self.matches_here("tab") {
            self.advance(3);
            return TokenKind::Character;
        }
        if self.matches_here("formfeed") {
            self.advance(8);
            return TokenKind::Character;
        }
        if self.matches_here("backspace") {
            self.advance(9);
            return TokenKind::Character;
        }
        match self.peek() {
            Some(c) => {
                if c == 'u' {
                    let ghost p = old(self).pos() as int;
                    self.bump();
                    let mut k: usize = 0;
                    while k < 4
                        invariant
                            self.wf(),
                            self.src() == old(self).src(),
                            0 <= k <= 4,
                            p == old(self).pos() as int,
                            p < self.src().len(),
                            self.src()[p] == 'u',
                            self.pos() == p + 1 + k,
                            forall|j: int| 0 <= j < k ==> #[trigger] hex_at(self.src(), p + 1 + j),
                            !named_char_at(self.src(), p, "newline"@),
                            !named_char_at(self.src(), p, "return"@),
                            !named_char_at(self.src(), p, "space"@),
                            !named_char_at(self.src(), p, "tab"@),
                            !named_char_at(self.src(), p, "formfeed"@),
                            !named_char_at(self.src(), p, "backspace"@),
                        decreases 4 - k,
                    {
                        match self.peek() {
                            Some(h) => {
                                if is_hex_digit(h) {
                                    self.bump();
                                } else {
                                    proof {
                                        if k as int >= 1 { assert(hex_at(self.src(), p + 1 + 0)); }
                                        if k as int >= 2 { assert(hex_at(self.src(), p + 1 + 1)); }
                                        if k as int >= 3 { assert(hex_at(self.src(), p + 1 + 2)); }
                                        assert(!hex_at(self.src(), p + 1 + k));
                                        assert(hex_run4(self.src(), p + 1) == k as int);
                                    }
                                    return TokenKind::Error;
                                }
                            },
                            None => {
                                proof {
                                    if k as int >= 1 { assert(hex_at(self.src(), p + 1 + 0)); }
                                    if k as int >= 2 { assert(hex_at(self.src(), p + 1 + 1)); }
                                    if k as int >= 3 { assert(hex_at(self.src(), p + 1 + 2)); }
                                    assert(!hex_at(self.src(), p + 1 + k));
                                    assert(hex_run4(self.src(), p + 1) == k as int);
                                }
                                return TokenKind::Error;
                            },
                        }
                        k = k + 1;
                    }
                    proof {
                        assert(hex_at(self.src(), p + 1 + 0));
                        assert(hex_at(self.src(), p + 1 + 1));
                        assert(hex_at(self.src(), p + 1 + 2));
                        assert(hex_at(self.src(), p + 1 + 3));
                        assert(hex_run4(self.src(), p + 1) == 4);
                    }
                    TokenKind::Character
                } else {
                    self.bump();
                    TokenKind::Character
                }
            },
            None => TokenKind::Error,
        }
    }

    /// Consumes a maximal run of symbol characters.
    fn lex_symbol_run(&mut self)
        requires
            old(self).wf(),
        ensures
            final(self).wf(),
            final(self).src() == old(self).src(),
            old(self).pos() <= final(self).pos(),
            symbol_run(final(self).src(), old(self).pos(), final(self).pos()),
    {
        loop
            invariant
                self.wf(),
                self.src() == old(self).src(),
                old(self).pos() <= self.pos(),
                forall|i: int|
                    old(self).pos() <= i < self.pos() ==> is_symbol_char_spec(
                        #[trigger] self.src()[i],
                    ),
            ensures
                self.pos() == self.src().len() || !is_symbol_char_spec(self.src()[self.pos()]),
            decreases self.src().len() - self.pos(),
        {
            match self.peek() {
                Some(c) => {
                    if is_symbol_char(c) {
                        self.bump();
                    } else {
                        break ;
                    }
                },
                None => {
                    break ;
                },
            }
        }
    }

    /// Scans a keyword after its leading colon.
    fn lex_keyword(&mut self) -> (kind: TokenKind)
        requires
            old(self).wf(),
        ensures
            final(self).wf(),
            final(self).src() == old(self).src(),
            kind == TokenKind::Keyword,
            old(self).pos() <= final(self).pos(),
            symbol_run(final(self).src(), old(self).pos(), final(self).pos()),
    {
        self.lex_symbol_run();
        TokenKind::Keyword
    }

    /// Scans a symbol after its first character.
    fn lex_symbol(&mut self) -> (kind: TokenKind)
        requires
            old(self).wf(),
        ensures
            final(self).wf(),
            final(self).src() == old(self).src(),
            kind == TokenKind::Symbol,
            old(self).pos() <= final(self).pos(),
            symbol_run(final(self).src(), old(self).pos(), final(self).pos()),
    {
        self.lex_symbol_run();
        TokenKind::Symbol
    }

    /// Scans the digits of a hexadecimal number after the `0x` prefix; at
    /// least one digit is required.
    fn lex_hex_number(&mut self) -> (kind: TokenKind)
        requires
            old(self).wf(),
        ensures
            final(self).wf(),
            final(self).src() == old(self).src(),
            kind == TokenKind::Number || kind == TokenKind::Error,
            old(self).pos() <= final(self).pos(),
            final(self).pos() == hex_run_end(old(self).src(), old(self).pos() as int),
            kind == (if final(self).pos() > old(self).pos() {
                TokenKind::Number
            } else {
                TokenKind::Error
            }),
    {
        let mut has_digit = false;
        loop
            invariant
                self.wf(),
                self.src() == old(self).src(),
                old(self).pos() <= self.pos(),
                has_digit == (self.pos() > old(self).pos()),
                hex_run_end(self.src(), self.pos() as int) == hex_run_end(
                    self.src(),
                    old(self).pos() as int,
                ),
            ensures
                self.pos() == hex_run_end(self.src(), old(self).pos() as int),
            decreases self.src().len() - self.pos(),
        {
            match self.peek() {
                Some(c) => {
                    if is_hex_digit(c) {
                        has_digit = true;
                        self.bump();
                    } else {
                        break ;
                    }
                },
                None => {
                    break ;
                },
            }
        }
        if has_digit {
            TokenKind::Number
        } else {
            TokenKind::Error
        }
    }

    /// Scans the digits of a binary number after the `0b` prefix; at least
    /// one digit is required.
    fn lex_binary_number(&mut self) -> (kind: TokenKind)
        requires
            old(self).wf(),
        ensures
            final(self).wf(),
            final(self).src() == old(self).src(),
            kind == TokenKind::Number || kind == TokenKind::Error,
            old(self).pos() <= final(self).pos(),
            final(self).pos() == bin_run_end(old(self).src(), old(self).pos() as int),
            kind == (if final(self).pos() > old(self).pos() {
                TokenKind::Number
            } else {
                TokenKind::Error
            }),
    {
        let mut has_digit = false;
        loop
            invariant
                self.wf(),
                self.src() == old(self).src(),
                old(self).pos() <= self.pos(),
                has_digit == (self.pos() > old(self).pos()),
                bin_run_end(self.src(), self.pos() as int) == bin_run_end(
                    self.src(),
                    old(self).pos() as int,
                ),
            ensures
                self.pos() == bin_run_end(self.src(), old(self).pos() as int),
            decreases self.src().len() - self.pos(),
        {
            match self.peek() {
                Some(c) => {
                    if c == '0' || c == '1' {
                        has_digit = true;
                        self.bump();
                    } else {
                        break ;
                    }
                },
                None => {
                    break ;
                },
            }
        }
        if has_digit {
            TokenKind::Number
        } else {
            TokenKind::Error
        }
    }

    /// Scans a number after its first character (a digit, or a minus sign
    /// followed by a digit). Recognizes decimal integers, fractions,
    /// exponents, hexadecimal and binary radices, bigint, long and ratio
    /// forms; a marker with no digits after it is an error.
    #[verifier::rlimit(100)]
    #[verifier::spinoff_prover]
    fn lex_number(&mut self, first: char) -> (kind: TokenKind)
        requires
            old(self).wf(),
            old(self).pos() >= 1,
            old(self).src()[old(self).pos() - 1] == first,
            is_digit_char(first) || first == '-',
        ensures
            final(self).wf(),
            final(self).src() == old(self).src(),
            kind == TokenKind::Number || kind == TokenKind::Error,
            old(self).pos() <= final(self).pos(),
            ({
                let s = final(self).src();
                let d0 = if first == '-' {
                    old(self).pos()
                } else {
                    old(self).pos() - 1
                };
                let e = digit_run_end(s, d0);
                (e == s.len() || !is_number_cont_char(s[e])) ==> kind == TokenKind::Number
                    && final(self).pos() == e
            }),
            ({
                let s = old(self).src();
                let p = old(self).pos() as int;
                first == '0' && p < s.len() && (s[p] == 'x' || s[p] == 'X')
                    ==> final(self).pos() == hex_run_end(s, p + 1) && kind == (if final(self).pos()
                    > p + 1 {
                    TokenKind::Number
                } else {
                    TokenKind::Error
                })
            }),
            ({
                let s = old(self).src();
                let p = old(self).pos() as int;
                first == '0' && p < s.len() && (s[p] == 'b' || s[p] == 'B')
                    ==> final(self).pos() == bin_run_end(s, p + 1) && kind == (if final(self).pos()
                    > p + 1 {
                    TokenKind::Number
                } else {
                    TokenKind::Error
                })
            }),
    {
        let ghost s = self.src();
        let ghost d0: int = if first == '-' {
            self.pos()
        } else {
            self.pos() - 1
        };
        if first == '0' {
            match self.peek() {
                Some(c) => {
                    if c == 'x' || c == 'X' {
                        proof {
                            assert(digit_run_end(s, self.pos()) == self.pos());
                            assert(digit_run_end(s, d0) == self.pos());
                        }
                        self.bump();
                        return self.lex_hex_number();
                    }
                    if c == 'b' || c == 'B' {
                        proof {
                            assert(digit_run_end(s, self.pos()) == self.pos());
                            assert(digit_run_end(s, d0) == self.pos());
                        }
                        self.bump();
                        return self.lex_binary_number();
                    }
                },
                None => {},
            }
        }
        let mut has_decimal = false;
        let mut has_exponent = false;
        // While only digits have been consumed, the position stays inside the
        // digit run that starts at `d0`; once a fraction, exponent, marker or
        // ratio is consumed, the character at the run's end is a number
        // continuation character and the exact-extent claim is vacuous.
        let ghost e = digit_run_end(s, d0);
        proof {
            lemma_digit_run_lb(s, self.pos());
            if first != '-' {
                lemma_digit_run_align(s, d0, self.pos());
            }
        }
        loop
            invariant
                self.wf(),
                self.src() == s,
                s == old(self).src(),
                old(self).pos() <= self.pos(),
                d0 == if first == '-' { old(self).pos() } else { old(self).pos() - 1 },
                d0 <= self.pos() <= s.len(),
                e == digit_run_end(s, d0),
                self.pos() <= e || (e < s.len() && is_number_cont_char(s[e])),
                self.pos() <= e ==> forall|i: int| d0 <= i < self.pos() ==> is_digit_char(
                    #[trigger] s[i],
                ),
                !(first == '0' && old(self).pos() < s.len() && (s[old(self).pos() as int] == 'x'
                    || s[old(self).pos() as int] == 'X' || s[old(self).pos() as int] == 'b'
                    || s[old(self).pos() as int] == 'B')),
            ensures
                (e == s.len() || !is_number_cont_char(s[e])) ==> self.pos() == e,
                !(first == '0' && old(self).pos() < s.len() && (s[old(self).pos() as int] == 'x'
                    || s[old(self).pos() as int] == 'X' || s[old(self).pos() as int] == 'b'
                    || s[old(self).pos() as int] == 'B')),
            decreases s.len() - self.pos(),
        {
            proof {
                if self.pos() <= e {
                    lemma_digit_run_align(s, d0, self.pos());
                    lemma_digit_run_lb(s, self.pos());
                    lemma_digit_run_lb(s, self.pos() + 1);
                    if self.pos() == s.len() || !is_digit_char(s[self.pos()]) {
                        assert(digit_run_end(s, self.pos()) == self.pos());
                    } else {
                        assert(digit_run_end(s, self.pos()) == digit_run_end(s, self.pos() + 1));
                    }
                }
            }
            match self.peek() {
                Some(c) => {
                    if is_digit(c) {
                        self.bump();
                    } else if c == '.' && !has_decimal && !has_exponent {
                        has_decimal = true;
                        self.bump();
                        match self.peek() {
                            Some(d) => {
                                if !is_digit(d) {
                                    return TokenKind::Error;
                                }
                            },
                            None => {
                                return TokenKind::Error;
                            },
                        }
                    } else if (c == 'e' || c == 'E') && !has_exponent {
                        has_exponent = true;
                        self.bump();
                        if self.peek_is('+') || self.peek_is('-') {
                            self.bump();
                        }
                        match self.peek() {
                            Some(d) => {
                                if !is_digit(d) {
                                    return TokenKind::Error;
                                }
                            },
                            None => {
                                return TokenKind::Error;
                            },
                        }
                    } else if c == 'N' || c == 'n' || c == 'L' || c == 'l' {
                        self.bump();
                        break ;
                    } else if c == '/' && !has_decimal && !has_exponent {
                        self.bump();
                        match self.peek() {
                            Some(d) => {
                                if !is_digit(d) {
                                    return TokenKind::Error;
                                }
                            },
                            None => {
                                return TokenKind::Error;
                            },
                        }
                        loop
                            invariant
                                self.wf(),
                                self.src() == s,
                                s == old(self).src(),
                                old(self).pos() <= self.pos(),
                                d0 == if first == '-' { old(self).pos() } else { old(self).pos() - 1 },
                                d0 <= self.pos() <= s.len(),
                                e == digit_run_end(s, d0),
                                e < self.pos(),
                                e < s.len() && is_number_cont_char(s[e]),
                                !(first == '0' && old(self).pos() < s.len() && (s[old(self).pos() as int] == 'x'
                    || s[old(self).pos() as int] == 'X' || s[old(self).pos() as int] == 'b'
                    || s[old(self).pos() as int] == 'B')),
                            decreases s.len() - self.pos(),
                        {
                            match self.peek() {
                                Some(d) => {
                                    if is_digit(d) {
                                        self.bump();
                                    } else {
                                        break ;
                                    }
                                },
                                None => {
                                    break ;
                                },
                            }
                        }
                        break ;
                    } else {
                        break ;
                    }
                },
                None => {
                    break ;
                },
            }
        }
        TokenKind::Number
    }
}

impl<'a> Lexer<'a> {
    /// Returns the next token from the input. The token starts exactly where
    /// the previous one ended, its text is the exact slice of the source it
    /// covers, and it is empty only when it is the terminating `Eof`.
    pub fn next_token(&mut self) -> (t: Token)
        requires
            old(self).wf(),
        ensures
            final(self).wf(),
            final(self).src() == old(self).src(),
            t.wf(),
            t.start == old(self).pos(),
            t.end == final(self).pos(),
            t.end <= final(self).src().len(),
            t.text@ == old(self).src().subrange(t.start as int, t.end as int),
            (t.kind == TokenKind::Eof) <==> (t.start == old(self).src().len()),
            t.kind == TokenKind::Eof ==> t.end == t.start,
            t.kind != TokenKind::Eof ==> t.start < t.end && token_scan_ok(old(self).src(), t),
    {
        proof {
            reveal(token_scan_ok);
        }
        let start = self.position;
        let kind = match self.bump() {
            None => TokenKind::Eof,
            Some(c) => {
                if c == '(' {
                    TokenKind::LeftParen
                } else if c == ')' {
                    TokenKind::RightParen
                } else if c == '[' {
                    TokenKind::LeftBracket
                } else if c == ']' {
                    TokenKind::RightBracket
                } else if c == '{' {
                    TokenKind::LeftBrace
                } else if c == '}' {
                    TokenKind::RightBrace
                } else if c == '\'' {
                    TokenKind::Quote
                } else if c == '`' {
                    TokenKind::Backtick
                } else if c == '^' {
                    TokenKind::Caret
                } else if c == ',' {
                    if self.peek_is('@') && self.at_start_of_list() {
                        self.bump();
                        TokenKind::TildeAt
                    } else {
                        TokenKind::Comma
                    }
                } else if c == '~' {
                    if self.peek_is('@') {
                        self.bump();
                        TokenKind::TildeAt
                    } else {
                        TokenKind::Tilde
                    }
                } else if c == '#' {
                    if self.peek_is('{') {
                        self.bump();
                        TokenKind::HashLeftBrace
                    } else if self.peek_is('_') {
                        self.bump();
                        // A discard; the parser tells it apart from a tag by
                        // looking at the token text.
                        TokenKind::Hash
                    } else {
                        TokenKind::Hash
                    }
                } else if c == ';' {
                    self.lex_comment()
                } else if c == '"' {
                    self.lex_string()
                } else if c == '\\' {
                    self.lex_character()
                } else if c == ':' {
                    self.lex_keyword()
                } else if is_digit(c) || (c == '-' && self.peek_is_digit()) {
                    self.lex_number(c)
                } else if is_symbol_start(c) {
                    self.lex_symbol()
                } else if is_whitespace(c) {
                    self.lex_whitespace()
                } else {
                    TokenKind::Error
                }
            },
        };
        let end = self.position;
        let text = String::from_str(self.input.substring_char(start, end));
        Token::new(kind, text, start, end)
    }

    /// Checks if the next character is a decimal digit.
    fn peek_is_digit(&self) -> (b: bool)
        requires
            self.wf(),
        ensures
            b == (self.pos() < self.src().len() && is_digit_char(self.src()[self.pos()])),
    {
        match self.peek() {
            Some(c) => is_digit(c),
            None => false,
        }
    }

    /// Whether a comma-at sequence counts as unquote-splicing here. The
    /// grammar treats it so everywhere.
    fn at_start_of_list(&self) -> (b: bool)
        ensures
            b,
    {
        true
    }

    /// Returns all tokens from the input: a stream that partitions the source
    /// exactly, ends in `Eof`, and whose concatenated texts rebuild the
    /// source.
    #[verifier::rlimit(50)]
    pub fn tokenize(&mut self) -> (r: Vec<Token>)
        requires
            old(self).wf(),
            old(self).pos() == 0,
        ensures
            final(self).wf(),
            final(self).src() == old(self).src(),
            token_stream_wf(r@, old(self).src()),
    {
        let ghost s = self.src();
        let mut tokens: Vec<Token> = Vec::new();
        loop
            invariant_except_break
                forall|i: int|
                    0 <= i < tokens@.len() ==> (#[trigger] tokens@[i]).kind != TokenKind::Eof
                        && tokens@[i].start < tokens@[i].end && token_scan_ok(s, tokens@[i]),
            invariant
                self.wf(),
                self.src() == s,
                tokens@.len() == 0 ==> self.pos() == 0,
                tokens@.len() > 0 ==> tokens@[0].start == 0,
                tokens@.len() > 0 ==> tokens@.last().end == self.pos(),
                forall|i: int|
                    0 <= i < tokens@.len() ==> (#[trigger] tokens@[i]).wf() && tokens@[i].end
                        <= s.len() && tokens@[i].text@ =~= s.subrange(
                        tokens@[i].start as int,
                        tokens@[i].end as int,
                    ),
                forall|i: int|
                    0 <= i < tokens@.len() - 1 ==> (#[trigger] tokens@[i]).end == tokens@[i
                        + 1].start,
                texts_concat(tokens@) =~= s.subrange(0, self.pos()),
            ensures
                token_stream_wf(tokens@, s),
            decreases s.len() - self.pos(),
        {
            let ghost prev = tokens@;
            let token = self.next_token();
            let is_eof = token.kind == TokenKind::Eof;
            proof {
                lemma_texts_concat_push(prev, token);
                assert(texts_concat(prev.push(token)) =~= s.subrange(0, token.end as int));
            }
            tokens.push(token);
            if is_eof {
                proof {
                    assert(texts_concat(tokens@) =~= s.subrange(0, s.len() as int));
                    assert(s.subrange(0, s.len() as int) =~= s);
                    assert forall|i: int| 0 <= i < tokens@.len() - 1 implies (#[trigger] tokens@[i]).kind
                        != TokenKind::Eof && tokens@[i].start < tokens@[i].end && token_scan_ok(
                        s,
                        tokens@[i],
                    ) by {
                        assert(tokens@[i] == prev[i]);
                    }
                    assert(token_stream_wf(tokens@, s));
                }
                break ;
            }
        }
        tokens
    }
}

/// A well-formed token stream for the source `s`: it partitions `s` exactly
/// into non-empty tokens, ends in the sole `Eof` token, and concatenating
/// its texts in order rebuilds `s`.
pub open spec fn token_stream_wf(ts: Seq<Token>, s: Seq<char>) -> bool {
    &&& ts.len() >= 1
    &&& ts[0].start == 0
    &&& ts.last().kind == TokenKind::Eof
    &&& ts.last().start == s.len() && ts.last().end == s.len()
    &&& forall|i: int|
        0 <= i < ts.len() - 1 ==> (#[trigger] ts[i]).kind != TokenKind::Eof && ts[i].start
            < ts[i].end && token_scan_ok(s, ts[i])
    &&& forall|i: int|
        0 <= i < ts.len() ==> (#[trigger] ts[i]).wf() && ts[i].end <= s.len() && ts[i].text@
            == s.subrange(ts[i].start as int, ts[i].end as int)
    &&& forall|i: int| 0 <= i < ts.len() - 1 ==> (#[trigger] ts[i]).end == ts[i + 1].start
    &&& texts_concat(ts) == s
}

/// A digit run never ends before it starts.
pub proof fn lemma_digit_run_lb(s: Seq<char>, from: int)
    requires
        0 <= from,
    ensures
        digit_run_end(s, from) >= from,
    decreases s.len() - from,
{
    if from < s.len() && is_digit_char(s[from]) {
        lemma_digit_run_lb(s, from + 1);
    }
}

/// If every character in `[d0, p)` is a digit, the digit run starting at
/// `d0` is the digit run starting at `p`.
pub proof fn lemma_digit_run_align(s: Seq<char>, d0: int, p: int)
    requires
        0 <= d0 <= p <= s.len(),
        forall|i: int| d0 <= i < p ==> is_digit_char(#[trigger] s[i]),
    ensures
        digit_run_end(s, d0) == digit_run_end(s, p),
    decreases p - d0,
{
    if d0 < p {
        lemma_digit_run_align(s, d0 + 1, p);
    }
}

} // verus!
