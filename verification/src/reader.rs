//! The reader: walks the concrete syntax tree and produces the semantic
//! value, dropping trivia and delimiters. Reader macros become canonical
//! list forms, number and string literal text is decoded, and the reader
//! fails with a syntax error on the first erroneous node it meets.

use vstd::prelude::*;
use vstd::string::StrSliceExecFns;
use vstd::string::StringExecFns;

use crate::lexer::is_digit_char;
use crate::lexer::is_hex_digit_char;
use crate::lexer::texts_concat;
use crate::syntax::SyntaxKind;
use crate::token::Token;
use crate::tree::SyntaxElement;
use crate::tree::SyntaxNode;
use crate::tree::elem_leaves;
use crate::tree::elems_leaves;
use crate::tree::elem_text;
use crate::tree::lemma_elems_leaves_push;
use crate::tree::lemma_texts_concat_app;
use crate::tree::node_text;
use crate::value::EvalError;
use crate::value::Value;

verus! {

/// The numeric value of a decimal digit.
pub open spec fn digit_val(c: char) -> int {
    c as int - '0' as int
}

/// The numeric value of a hexadecimal digit.
pub open spec fn hex_digit_val(c: char) -> int {
    if is_digit_char(c) {
        c as int - '0' as int
    } else if 'a' <= c && c <= 'f' {
        c as int - 'a' as int + 10
    } else {
        c as int - 'A' as int + 10
    }
}

/// The value of the first `i` characters of `s` read as digits in the given
/// base.
pub open spec fn digits_val_upto(s: Seq<char>, base: int, i: int) -> int
    decreases i,
{
    if i <= 0 {
        0
    } else {
        digits_val_upto(s, base, i - 1) * base + (if base == 16 {
            hex_digit_val(s[i - 1])
        } else {
            digit_val(s[i - 1])
        })
    }
}

/// Whether every character of `s` is a digit of the given base.
pub open spec fn all_digits(s: Seq<char>, base: int) -> bool {
    &&& s.len() >= 1
    &&& forall|i: int|
        0 <= i < s.len() ==> if base == 16 {
            is_hex_digit_char(#[trigger] s[i])
        } else if base == 2 {
            s[i] == '0' || s[i] == '1'
        } else {
            is_digit_char(s[i])
        }
}

/// The value of `s` read entirely as digits in the given base, if it is
/// such a digit string.
pub open spec fn digits_val(s: Seq<char>, base: int) -> Option<int> {
    if all_digits(s, base) {
        Some(digits_val_upto(s, base, s.len() as int))
    } else {
        None
    }
}

/// The magnitude of an unsigned number literal: a hexadecimal `0x` form, a
/// binary `0b` form, or a decimal form with an optional bigint or long
/// marker.
pub open spec fn num_magnitude(s: Seq<char>) -> Option<int> {
    if s.len() >= 2 && s[0] == '0' && (s[1] == 'x' || s[1] == 'X') {
        digits_val(s.subrange(2, s.len() as int), 16)
    } else if s.len() >= 2 && s[0] == '0' && (s[1] == 'b' || s[1] == 'B') {
        digits_val(s.subrange(2, s.len() as int), 2)
    } else if s.len() >= 2 && (s.last() == 'N' || s.last() == 'n' || s.last() == 'L' || s.last()
        == 'l') {
        digits_val(s.subrange(0, s.len() - 1), 10)
    } else {
        digits_val(s, 10)
    }
}

/// The integer value of a number literal's text: an optional minus sign
/// followed by a magnitude. Fractions, exponents and ratios have no integer
/// value.
pub open spec fn num_value(s: Seq<char>) -> Option<int> {
    if s.len() >= 1 && s[0] == '-' {
        match num_magnitude(s.subrange(1, s.len() as int)) {
            Some(v) => Some(-v),
            None => None,
        }
    } else {
        num_magnitude(s)
    }
}

/// The character with the given code.
pub open spec fn code_char(n: int) -> char {
    (n as u32) as char
}

/// What one escape character stands for in a string literal.
pub open spec fn escape_val(c: char) -> char {
    if c == 'n' {
        '\n'
    } else if c == 't' {
        '\t'
    } else if c == 'r' {
        '\r'
    } else {
        c
    }
}

/// The decoded characters of a string literal body, processing backslash
/// escapes; `None` when an escape is malformed.
pub open spec fn unescape(s: Seq<char>) -> Option<Seq<char>>
    decreases s.len(),
{
    if s.len() == 0 {
        Some(Seq::empty())
    } else if s[0] == '\\' {
        if s.len() >= 2 && s[1] == 'u' {
            if s.len() >= 6 && all_digits(s.subrange(2, 6), 16) && valid_code(
                digits_val_upto(s.subrange(2, 6), 16, 4),
            ) {
                match unescape(s.subrange(6, s.len() as int)) {
                    Some(rest) => Some(
                        seq![code_char(digits_val_upto(s.subrange(2, 6), 16, 4))] + rest,
                    ),
                    None => None,
                }
            } else {
                None
            }
        } else if s.len() >= 2 {
            match unescape(s.subrange(2, s.len() as int)) {
                Some(rest) => Some(seq![escape_val(s[1])] + rest),
                None => None,
            }
        } else {
            None
        }
    } else {
        match unescape(s.drop_first()) {
            Some(rest) => Some(seq![s[0]] + rest),
            None => None,
        }
    }
}

/// Code points that are characters: the surrogate range is excluded.
pub open spec fn valid_code(n: int) -> bool {
    0 <= n < 0xD800 || 0xDFFF < n <= 0x10FFFF
}

/// The character a character literal's text stands for: the backslash
/// followed by a named character, a `uXXXX` escape, or a single character.
pub open spec fn char_lit_val(s: Seq<char>) -> Option<char> {
    if s.len() >= 1 && s[0] == '\\' {
        let body = s.subrange(1, s.len() as int);
        if body == "newline"@ {
            Some('\n')
        } else if body == "return"@ {
            Some('\r')
        } else if body == "space"@ {
            Some(' ')
        } else if body == "tab"@ {
            Some('\t')
        } else if body == "formfeed"@ {
            Some('\u{c}')
        } else if body == "backspace"@ {
            Some('\u{8}')
        } else if body.len() == 5 && body[0] == 'u' && all_digits(body.subrange(1, 5), 16)
            && valid_code(digits_val_upto(body.subrange(1, 5), 16, 4)) {
            Some(code_char(digits_val_upto(body.subrange(1, 5), 16, 4)))
        } else if body.len() == 1 {
            Some(body[0])
        } else {
            None
        }
    } else {
        None
    }
}

/// Decides whether a character is a decimal digit.
fn ch_is_digit(c: char) -> (b: bool)
    ensures
        b == is_digit_char(c),
{
    '0' <= c && c <= '9'
}

/// Decides whether a character is a hexadecimal digit, and gives its value.
fn ch_hex_val(c: char) -> (r: Option<u32>)
    ensures
        match r {
            Some(v) => is_hex_digit_char(c) && v == hex_digit_val(c) && v < 16,
            None => !is_hex_digit_char(c),
        },
{
    if '0' <= c && c <= '9' {
        Some(c as u32 - '0' as u32)
    } else if 'a' <= c && c <= 'f' {
        Some(c as u32 - 'a' as u32 + 10)
    } else if 'A' <= c && c <= 'F' {
        Some(c as u32 - 'A' as u32 + 10)
    } else {
        None
    }
}

/// Reads the digits of `s` in `[from, to)` as a number in the given base;
/// `None` when a character is not a digit of the base or the value exceeds
/// `u64` range.
fn scan_digits(s: &str, from: usize, to: usize, base: u64) -> (r: Option<u64>)
    requires
        from <= to <= s@.len(),
        base == 2 || base == 10 || base == 16,
    ensures
        match r {
            Some(v) => digits_val(s@.subrange(from as int, to as int), base as int) == Some(
                v as int,
            ),
            None => digits_val(s@.subrange(from as int, to as int), base as int) is None || (
            exists|v: int| #[trigger]
                digits_val(s@.subrange(from as int, to as int), base as int) == Some(v) && v
                    > u64::MAX),
        },
{
    let ghost body = s@.subrange(from as int, to as int);
    if from == to {
        assert(!all_digits(body, base as int));
        return None;
    }
    let mut acc: u64 = 0;
    let mut i: usize = from;
    while i < to
        invariant
            from <= i <= to <= s@.len(),
            base == 2 || base == 10 || base == 16,
            body == s@.subrange(from as int, to as int),
            forall|k: int|
                0 <= k < i - from ==> if base == 16 {
                    is_hex_digit_char(#[trigger] body[k])
                } else if base == 2 {
                    body[k] == '0' || body[k] == '1'
                } else {
                    is_digit_char(body[k])
                },
            acc as int == digits_val_upto(body, base as int, i - from),
        decreases to - i,
    {
        let c = s.get_char(i);
        assert(c == body[i - from]);
        let d: u64 = match ch_hex_val(c) {
            Some(v) => {
                if base == 16 {
                    v as u64
                } else if base == 10 {
                    if ch_is_digit(c) {
                        v as u64
                    } else {
                        assert(!all_digits(body, base as int));
                        return None;
                    }
                } else {
                    if c == '0' || c == '1' {
                        v as u64
                    } else {
                        assert(!all_digits(body, base as int));
                        return None;
                    }
                }
            },
            None => {
                assert(!all_digits(body, base as int));
                return None;
            },
        };
        if acc > (u64::MAX - d) / base {
            proof {
                if all_digits(body, base as int) {
                    let mx = u64::MAX as int;
                    let dd = d as int;
                    let bb = base as int;
                    let ai = acc as int;
                    let q = (mx - dd) / bb;
                    vstd::arithmetic::div_mod::lemma_fundamental_div_mod(mx - dd, bb);
                    assert(ai * bb >= (q + 1) * bb) by (nonlinear_arith)
                        requires
                            ai >= q + 1,
                            bb >= 2,
                    ;
                    assert(digits_val_upto(body, bb, i - from + 1) == ai * bb + dd);
                    assert(digits_val_upto(body, bb, i - from + 1) > mx);
                    lemma_digits_val_grows(body, bb, i - from + 1, body.len() as int);
                }
            }
            return None;
        }
        acc = acc * base + d;
        i = i + 1;
    }
    proof {
        assert(all_digits(body, base as int));
        assert(digits_val(body, base as int) == Some(acc as int));
    }
    Some(acc)
}

/// Relies on char::from_u32: it returns the character with the given code
/// exactly when the code is a Unicode scalar value.
#[verifier::external_body]
fn char_from_u32(v: u32) -> (r: Option<char>)
    ensures
        r matches Some(c) ==> c == code_char(v as int) && valid_code(v as int),
        r is None ==> !valid_code(v as int),
{
    char::from_u32(v)
}

/// Decodes the escape sequences in the suffix of `s` that starts at `i`.
fn unescape_from(s: &str, i: usize) -> (r: Option<String>)
    requires
        i <= s@.len(),
    ensures
        match r {
            Some(o) => unescape(s@.subrange(i as int, s@.len() as int)) == Some(o@),
            None => unescape(s@.subrange(i as int, s@.len() as int)) is None,
        },
    decreases s@.len() - i,
{
    let ghost suf = s@.subrange(i as int, s@.len() as int);
    let n = s.unicode_len();
    if i == n {
        proof {
            assert(suf.len() == 0);
        }
        return Some(String::new());
    }
    let c = s.get_char(i);
    assert(c == suf[0]);
    if c == '\\' {
        if n - i >= 2 && s.get_char(i + 1) == 'u' {
            if n - i >= 6 {
                let ghost hx = suf.subrange(2, 6);
                let mut code: u32 = 0;
                let mut k: usize = 0;
                let mut bad = false;
                while k < 4
                    invariant
                        0 <= k <= 4,
                        i + 6 <= n <= s@.len(),
                        hx == s@.subrange(i as int, s@.len() as int).subrange(2, 6),
                        suf == s@.subrange(i as int, s@.len() as int),
                        !bad ==> forall|t: int| 0 <= t < k ==> is_hex_digit_char(#[trigger] hx[t]),
                        !bad ==> code == digits_val_upto(hx, 16, k as int),
                        !bad ==> code < (if k == 0 { 1u32 } else if k == 1 { 16u32 } else if k == 2 { 256u32 } else if k == 3 { 4096u32 } else { 65536u32 }),
                        bad ==> !all_digits(hx, 16),
                    decreases 4 - k,
                {
                    let hc = s.get_char(i + 2 + k);
                    assert(hc == hx[k as int]);
                    match ch_hex_val(hc) {
                        Some(d) => {
                            if !bad {
                                code = code * 16 + d;
                            }
                        },
                        None => {
                            bad = true;
                        },
                    }
                    k = k + 1;
                }
                if bad {
                    return None;
                }
                match char_from_u32(code) {
                    Some(ch) => {
                        match unescape_from(s, i + 6) {
                            Some(rest) => {
                                let mut out = String::new();
                                push_char(&mut out, ch);
                                out.append(rest.as_str());
                                proof {
                                    assert(suf.subrange(6, suf.len() as int) =~= s@.subrange(
                                        i + 6,
                                        s@.len() as int,
                                    ));
                                    assert(out@ =~= seq![
                                        code_char(digits_val_upto(hx, 16, 4)),
                                    ] + rest@);
                                }
                                Some(out)
                            },
                            None => {
                                proof {
                                    assert(suf.subrange(6, suf.len() as int) =~= s@.subrange(
                                        i + 6,
                                        s@.len() as int,
                                    ));
                                }
                                None
                            },
                        }
                    },
                    None => None,
                }
            } else {
                None
            }
        } else if n - i >= 2 {
            let e = s.get_char(i + 1);
            assert(e == suf[1]);
            match unescape_from(s, i + 2) {
                Some(rest) => {
                    let decoded: char = if e == 'n' {
                        '\n'
                    } else if e == 't' {
                        '\t'
                    } else if e == 'r' {
                        '\r'
                    } else {
                        e
                    };
                    let mut out = String::new();
                    push_char(&mut out, decoded);
                    out.append(rest.as_str());
                    proof {
                        assert(suf.subrange(2, suf.len() as int) =~= s@.subrange(
                            i + 2,
                            s@.len() as int,
                        ));
                        assert(out@ =~= seq![escape_val(suf[1])] + rest@);
                    }
                    Some(out)
                },
                None => {
                    proof {
                        assert(suf.subrange(2, suf.len() as int) =~= s@.subrange(
                            i + 2,
                            s@.len() as int,
                        ));
                    }
                    None
                },
            }
        } else {
            None
        }
    } else {
        match unescape_from(s, i + 1) {
            Some(rest) => {
                let mut out = String::new();
                push_char(&mut out, c);
                out.append(rest.as_str());
                proof {
                    assert(suf.drop_first() =~= s@.subrange(i + 1, s@.len() as int));
                    assert(out@ =~= seq![suf[0]] + rest@);
                }
                Some(out)
            },
            None => {
                proof {
                    assert(suf.drop_first() =~= s@.subrange(i + 1, s@.len() as int));
                }
                None
            },
        }
    }
}

/// Relies on String::push: it appends exactly the one character.
#[verifier::external_body]
pub fn push_char(s: &mut String, c: char)
    ensures
        final(s)@ == old(s)@ + seq![c],
{
    s.push(c);
}

/// Decodes a character literal's text into the character it stands for.
fn parse_character_text(s: &str) -> (r: Option<char>)
    ensures
        match r {
            Some(c) => char_lit_val(s@) == Some(c),
            None => char_lit_val(s@) is None,
        },
{
    proof {
        reveal_strlit("newline");
        reveal_strlit("return");
        reveal_strlit("space");
        reveal_strlit("tab");
        reveal_strlit("formfeed");
        reveal_strlit("backspace");
    }
    let n = s.unicode_len();
    if n == 0 || s.get_char(0) != '\\' {
        return None;
    }
    let ghost body = s@.subrange(1, s@.len() as int);
    let body_str = String::from_str(s.substring_char(1, n));
    if body_str == String::from_str("newline") {
        return Some('\n');
    }
    if body_str == String::from_str("return") {
        return Some('\r');
    }
    if body_str == String::from_str("space") {
        return Some(' ');
    }
    if body_str == String::from_str("tab") {
        return Some('\t');
    }
    if body_str == String::from_str("formfeed") {
        return Some('\u{c}');
    }
    if body_str == String::from_str("backspace") {
        return Some('\u{8}');
    }
    if n == 6 && s.get_char(1) == 'u' {
        let ghost hx = body.subrange(1, 5);
        let mut code: u32 = 0;
        let mut k: usize = 0;
        while k < 4
            invariant
                0 <= k <= 4,
                n == s@.len(),
                n == 6,
                s@[0] == '\\',
                s@[1] == 'u',
                body == s@.subrange(1, s@.len() as int),
                hx == s@.subrange(1, s@.len() as int).subrange(1, 5),
                forall|t: int| 0 <= t < k ==> is_hex_digit_char(#[trigger] hx[t]),
                code == digits_val_upto(hx, 16, k as int),
                code < (if k == 0 { 1u32 } else if k == 1 { 16u32 } else if k == 2 { 256u32 } else if k == 3 { 4096u32 } else { 65536u32 }),
            decreases 4 - k,
        {
            let hc = s.get_char(2 + k);
            assert(hc == hx[k as int]);
            match ch_hex_val(hc) {
                Some(d) => {
                    code = code * 16 + d;
                },
                None => {
                    proof {
                        reveal_strlit("newline");
                        reveal_strlit("return");
                        reveal_strlit("space");
                        reveal_strlit("tab");
                        reveal_strlit("formfeed");
                        reveal_strlit("backspace");
                        assert(!all_digits(hx, 16));
                        assert(body[0] == 'u');
                        assert(char_lit_val(s@) is None);
                    }
                    return None;
                },
            }
            k = k + 1;
        }
        return char_from_u32(code);
    }
    if n == 2 {
        return Some(s.get_char(1));
    }
    None
}

/// The text of a node: the concatenation of its leaves' texts.
fn node_text_exec(n: &SyntaxNode) -> (r: String)
    ensures
        r@ == node_text(*n),
    decreases *n, 0int, 0int,
{
    let mut out = String::new();
    let cs = &n.children;
    let m = cs.len();
    let mut i: usize = 0;
    proof {
        assert(elems_leaves(cs@.subrange(0, 0)) =~= Seq::<Token>::empty());
        assert(texts_concat(Seq::<Token>::empty()) =~= Seq::<char>::empty());
    }
    while i < m
        invariant
            0 <= i <= m,
            m == cs@.len(),
            cs == &n.children,
            out@ == texts_concat(elems_leaves(cs@.subrange(0, i as int))),
        decreases m - i,
    {
        let piece = elem_text_exec(&cs[i]);
        out.append(piece.as_str());
        proof {
            assert(cs@.subrange(0, i + 1) =~= cs@.subrange(0, i as int).push(cs@[i as int]));
            lemma_elems_leaves_push(cs@.subrange(0, i as int), cs@[i as int]);
            lemma_texts_concat_app(
                elems_leaves(cs@.subrange(0, i as int)),
                elem_leaves(cs@[i as int]),
            );
        }
        i = i + 1;
    }
    proof {
        assert(cs@.subrange(0, m as int) =~= cs@);
    }
    out
}

/// The text of an element: a leaf's own text, or a node's concatenated leaf
/// texts.
fn elem_text_exec(e: &SyntaxElement) -> (r: String)
    ensures
        r@ == elem_text(*e),
    decreases *e, 1int, 0int,
{
    match e {
        SyntaxElement::Token(t) => {
            proof {
                assert(elem_leaves(*e) =~= seq![*t]);
                assert(seq![*t].drop_first() =~= Seq::<Token>::empty());
                assert(seq![*t][0] == *t);
                assert(texts_concat(Seq::<Token>::empty()) =~= Seq::<char>::empty());
                assert(texts_concat(seq![*t]) =~= t.text@);
            }
            t.text.clone()
        },
        SyntaxElement::Node(n) => node_text_exec(n),
    }
}

/// A digit string's value is never negative.
pub proof fn lemma_digits_val_nonneg(s: Seq<char>, base: int, i: int)
    requires
        base == 2 || base == 10 || base == 16,
        0 <= i <= s.len(),
        forall|k: int|
            0 <= k < i ==> if base == 16 {
                is_hex_digit_char(#[trigger] s[k])
            } else if base == 2 {
                s[k] == '0' || s[k] == '1'
            } else {
                is_digit_char(s[k])
            },
    ensures
        digits_val_upto(s, base, i) >= 0,
    decreases i,
{
    if i > 0 {
        lemma_digits_val_nonneg(s, base, i - 1);
        let prev = digits_val_upto(s, base, i - 1);
        assert(prev * base >= 0) by (nonlinear_arith)
            requires
                prev >= 0,
                base >= 2,
        ;
    }
}

/// A digit value never shrinks as more digits are read.
pub proof fn lemma_digits_val_grows(s: Seq<char>, base: int, i: int, j: int)
    requires
        base >= 2,
        0 <= i <= j <= s.len(),
        forall|k: int|
            0 <= k < j ==> if base == 16 {
                is_hex_digit_char(#[trigger] s[k])
            } else if base == 2 {
                s[k] == '0' || s[k] == '1'
            } else {
                is_digit_char(s[k])
            },
        base == 2 || base == 10 || base == 16,
    ensures
        digits_val_upto(s, base, i) <= digits_val_upto(s, base, j),
        digits_val_upto(s, base, i) >= 0,
    decreases j - i,
{
    lemma_digits_val_nonneg(s, base, i);
    if i < j {
        lemma_digits_val_grows(s, base, i, j - 1);
        lemma_digits_val_nonneg(s, base, j - 1);
        assert(digits_val_upto(s, base, j) == digits_val_upto(s, base, j - 1) * base + (if base
            == 16 {
            hex_digit_val(s[j - 1])
        } else {
            digit_val(s[j - 1])
        }));
        assert(digits_val_upto(s, base, j - 1) * base >= digits_val_upto(s, base, j - 1)) by (
        nonlinear_arith)
            requires
                digits_val_upto(s, base, j - 1) >= 0,
                base >= 2,
        ;
    }
}

/// Reads the integer value of a number literal's text; an error when the
/// text has no integer value or it does not fit a signed 64-bit number.
pub fn parse_number_text(s: &str) -> (r: Option<i64>)
    ensures
        match r {
            Some(v) => num_value(s@) == Some(v as int),
            None => num_value(s@) is None || (exists|v: int| #[trigger] num_value(s@) == Some(v)
                && !(i64::MIN <= v <= i64::MAX)),
        },
{
    let n = s.unicode_len();
    let neg = n >= 1 && s.get_char(0) == '-';
    let start: usize = if neg {
        1
    } else {
        0
    };
    let ghost mag_txt = s@.subrange(start as int, n as int);
    let mag: Option<u64> = if n >= start + 2 && s.get_char(start) == '0' && (s.get_char(start + 1)
        == 'x' || s.get_char(start + 1) == 'X') {
        proof {
            assert(mag_txt[0] == '0');
            assert(mag_txt[1] == s@[start + 1]);
            assert(mag_txt.subrange(2, mag_txt.len() as int) =~= s@.subrange(
                start + 2,
                n as int,
            ));
        }
        scan_digits(s, start + 2, n, 16)
    } else if n >= start + 2 && s.get_char(start) == '0' && (s.get_char(start + 1) == 'b'
        || s.get_char(start + 1) == 'B') {
        proof {
            assert(mag_txt[0] == '0');
            assert(mag_txt[1] == s@[start + 1]);
            assert(mag_txt.subrange(2, mag_txt.len() as int) =~= s@.subrange(
                start + 2,
                n as int,
            ));
        }
        scan_digits(s, start + 2, n, 2)
    } else if n >= start + 2 && {
        let lc = s.get_char(n - 1);
        lc == 'N' || lc == 'n' || lc == 'L' || lc == 'l'
    } {
        proof {
            assert(mag_txt.last() == s@[n - 1]);
            assert(mag_txt.subrange(0, mag_txt.len() - 1) =~= s@.subrange(
                start as int,
                n - 1,
            ));
        }
        scan_digits(s, start, n - 1, 10)
    } else if n > start {
        proof {
            assert(mag_txt =~= s@.subrange(start as int, n as int));
        }
        scan_digits(s, start, n, 10)
    } else {
        proof {
            assert(num_value(s@) is None);
        }
        return None;
    };
    proof {
        if neg {
            assert(s@.subrange(1, s@.len() as int) =~= mag_txt);
        } else {
            assert(mag_txt =~= s@);
        }
    }
    match mag {
        Some(m) => {
            if neg {
                if m <= 0x8000_0000_0000_0000u64 {
                    if m == 0x8000_0000_0000_0000u64 {
                        Some(i64::MIN)
                    } else {
                        Some(-(m as i64))
                    }
                } else {
                    None
                }
            } else {
                if m <= 0x7fff_ffff_ffff_ffffu64 {
                    Some(m as i64)
                } else {
                    None
                }
            }
        },
        None => None,
    }
}


/// Whether a child element is a form for the reader: a composite node that
/// is neither trivia nor a discarded form.
pub open spec fn is_reader_form(e: SyntaxElement) -> bool {
    match e {
        SyntaxElement::Node(n) => n.kind != SyntaxKind::Comment && n.kind != SyntaxKind::Discard
            && n.kind != SyntaxKind::Whitespace,
        SyntaxElement::Token(_) => false,
    }
}

/// The alias symbol a reader-macro node expands to.
pub open spec fn quote_alias(kind: SyntaxKind) -> Seq<char> {
    if kind == SyntaxKind::Quote {
        "quote"@
    } else if kind == SyntaxKind::Backtick {
        "quasiquote"@
    } else if kind == SyntaxKind::Unquote {
        "unquote"@
    } else {
        "unquote-splicing"@
    }
}

/// Inserts an entry into an association sequence: the first entry with a
/// structurally equal key is replaced, otherwise the entry is appended.
pub open spec fn map_put(es: Seq<(Value, Value)>, k: Value, v: Value) -> Seq<(Value, Value)>
    decreases es.len(),
{
    if es.len() == 0 {
        seq![(k, v)]
    } else if crate::value::val_eq(es[0].0, k) {
        seq![(k, v)] + es.drop_first()
    } else {
        seq![es[0]] + map_put(es.drop_first(), k, v)
    }
}

/// The association sequence built from the first `p` key-value pairs of a
/// flat form sequence, later keys replacing earlier equal ones.
pub open spec fn pairs_fold(vs: Seq<Value>, p: int) -> Seq<(Value, Value)>
    decreases p,
{
    if p <= 0 {
        Seq::empty()
    } else {
        map_put(pairs_fold(vs, p - 1), vs[2 * p - 2], vs[2 * p - 1])
    }
}

/// Inserts a member into a member sequence unless a structurally equal one
/// is already there.
pub open spec fn set_put(items: Seq<Value>, v: Value) -> Seq<Value> {
    if crate::value::item_matched(items, v) {
        items
    } else {
        items.push(v)
    }
}

/// The member sequence built from the first `i` values of a form sequence,
/// duplicates silently coalesced.
pub open spec fn sets_fold(vs: Seq<Value>, i: int) -> Seq<Value>
    decreases i,
{
    if i <= 0 {
        Seq::empty()
    } else {
        set_put(sets_fold(vs, i - 1), vs[i - 1])
    }
}

/// Marks a candidate form sequence, so that a quantifier over form
/// sequences has a stable handle.
pub open spec fn forms_seen(vs: Seq<Value>) -> bool {
    true
}

/// Marks a candidate value, so that a quantifier over values has a stable
/// handle.
pub open spec fn value_seen(v: Value) -> bool {
    true
}

/// What reading the form children of `cs` from position `k` onward may
/// produce: the values of the forms in order, or the error of the first form
/// that fails.
pub open spec fn read_forms_rel(cs: Seq<SyntaxElement>, k: int, out: Result<
    Seq<Value>,
    EvalError,
>) -> bool
    decreases cs, cs.len() - k, 1int,
{
    if k < 0 || k >= cs.len() {
        out matches Ok(vs) && vs.len() == 0
    } else if !is_reader_form(cs[k]) {
        read_forms_rel(cs, k + 1, out)
    } else {
        match cs[k] {
            SyntaxElement::Node(n) => {
                ||| (out matches Ok(vs) && vs.len() >= 1 && read_node_rel(n, Ok(Some(vs[0])))
                    && read_forms_rel(cs, k + 1, Ok(vs.drop_first())))
                ||| (out matches Err(er) && read_node_rel(n, Err(er)))
                ||| (out matches Err(er) && (exists|v: Value| #[trigger]
                    value_seen(v) && read_node_rel(n, Ok(Some(v)))) && read_forms_rel(
                    cs,
                    k + 1,
                    Err(er),
                ))
            },
            SyntaxElement::Token(_) => false,
        }
    }
}

/// What reading a node may produce. Literals decode their text; collections
/// read their form children in order; reader macros become canonical list
/// forms; metadata is dropped in favor of the decorated form; a discarded
/// form reads to nothing; erroneous nodes fail.
pub open spec fn read_node_rel(n: SyntaxNode, r: Result<Option<Value>, EvalError>) -> bool
    decreases n, 0int, 0int,
{
    let text = node_text(n);
    let kind = n.kind;
    if kind == SyntaxKind::NumberLit {
        match num_value(text) {
            Some(v) => if i64::MIN <= v <= i64::MAX {
                r matches Ok(Some(rv)) && rv matches Value::Number(m) && m == v
            } else {
                r matches Err(EvalError::SyntaxError(m)) && m@ == "Invalid number: "@ + text
            },
            None => r matches Err(EvalError::SyntaxError(m)) && m@ == "Invalid number: "@ + text,
        }
    } else if kind == SyntaxKind::StringLit {
        let content = if text.len() >= 2 {
            text.subrange(1, text.len() - 1)
        } else {
            Seq::empty()
        };
        match unescape(content) {
            Some(u) => r matches Ok(Some(rv)) && rv matches Value::String(sv) && sv@ == u,
            None => r matches Err(EvalError::SyntaxError(m)) && m@ == "Invalid string escape"@,
        }
    } else if kind == SyntaxKind::SymbolLit {
        if text == "nil"@ {
            r matches Ok(Some(rv)) && rv is Nil
        } else if text == "true"@ {
            r matches Ok(Some(rv)) && rv matches Value::Boolean(b) && b
        } else if text == "false"@ {
            r matches Ok(Some(rv)) && rv matches Value::Boolean(b) && !b
        } else {
            r matches Ok(Some(rv)) && rv matches Value::Symbol(sv) && sv@ == text
        }
    } else if kind == SyntaxKind::KeywordLit {
        let content = if text.len() >= 1 && text[0] == ':' {
            text.drop_first()
        } else {
            text
        };
        r matches Ok(Some(rv)) && rv matches Value::Keyword(kv) && kv@ == content
    } else if kind == SyntaxKind::CharacterLit {
        match char_lit_val(text) {
            Some(c) => r matches Ok(Some(rv)) && rv matches Value::String(sv) && sv@ == seq![c],
            None => r matches Err(EvalError::SyntaxError(m)) && m@ == "Invalid character literal: "@
                + text,
        }
    } else if kind == SyntaxKind::List {
        ||| (r matches Ok(Some(rv)) && rv matches Value::List(items) && read_forms_rel(
            n.children@,
            0,
            Ok(items@),
        ))
        ||| (r matches Err(er) && read_forms_rel(n.children@, 0, Err(er)))
    } else if kind == SyntaxKind::Vector {
        ||| (r matches Ok(Some(rv)) && rv matches Value::Vector(items) && read_forms_rel(
            n.children@,
            0,
            Ok(items@),
        ))
        ||| (r matches Err(er) && read_forms_rel(n.children@, 0, Err(er)))
    } else if kind == SyntaxKind::MapLit {
        ||| (exists|vs: Seq<Value>|
            {
                &&& #[trigger] forms_seen(vs)
                &&& read_forms_rel(n.children@, 0, Ok(vs))
                &&& vs.len() % 2 == 0
                &&& r matches Ok(Some(rv)) && rv matches Value::MapVal(m) && m.entries@
                    == pairs_fold(vs, vs.len() as int / 2)
            })
        ||| (exists|vs: Seq<Value>|
            {
                &&& #[trigger] forms_seen(vs)
                &&& read_forms_rel(n.children@, 0, Ok(vs))
                &&& vs.len() % 2 == 1
                &&& r matches Err(EvalError::SyntaxError(m)) && m@
                    == "Map literal must have an even number of forms"@
            })
        ||| (r matches Err(er) && read_forms_rel(n.children@, 0, Err(er)))
    } else if kind == SyntaxKind::SetLit {
        ||| (exists|vs: Seq<Value>|
            {
                &&& #[trigger] forms_seen(vs)
                &&& read_forms_rel(n.children@, 0, Ok(vs))
                &&& r matches Ok(Some(rv)) && rv matches Value::SetVal(sv) && sv.items@
                    == sets_fold(vs, vs.len() as int)
            })
        ||| (r matches Err(er) && read_forms_rel(n.children@, 0, Err(er)))
    } else if kind == SyntaxKind::Quote || kind == SyntaxKind::Backtick || kind
        == SyntaxKind::Unquote || kind == SyntaxKind::UnquoteSplicing {
        ||| (exists|vs: Seq<Value>|
            {
                &&& #[trigger] forms_seen(vs)
                &&& read_forms_rel(n.children@, 0, Ok(vs))
                &&& r matches Ok(Some(rv))
                &&& rv matches Value::List(items)
                &&& items@.len() == vs.len() + 1
                &&& (items@[0] matches Value::Symbol(sv) && sv@ == quote_alias(kind))
                &&& items@.drop_first() == vs
            })
        ||| (r matches Err(er) && read_forms_rel(n.children@, 0, Err(er)))
    } else if kind == SyntaxKind::Meta {
        ||| (exists|vs: Seq<Value>|
            {
                &&& #[trigger] forms_seen(vs)
                &&& read_forms_rel(n.children@, 0, Ok(vs))
                &&& if vs.len() >= 1 {
                    r matches Ok(Some(rv)) && rv == vs.last()
                } else {
                    r matches Err(EvalError::SyntaxError(m)) && m@ == "Empty metadata form"@
                }
            })
        ||| (r matches Err(er) && read_forms_rel(n.children@, 0, Err(er)))
    } else if kind == SyntaxKind::Discard || kind == SyntaxKind::Comment || kind
        == SyntaxKind::Whitespace {
        r matches Ok(None)
    } else if kind == SyntaxKind::Error {
        r matches Err(EvalError::SyntaxError(m)) && m@ == "Erroneous syntax node"@
    } else if kind == SyntaxKind::Root {
        ||| (exists|vs: Seq<Value>|
            {
                &&& #[trigger] forms_seen(vs)
                &&& read_forms_rel(n.children@, 0, Ok(vs))
                &&& if vs.len() == 1 {
                    r matches Ok(Some(rv)) && rv == vs[0]
                } else {
                    r matches Ok(Some(rv)) && (rv matches Value::List(items) && items@ == vs)
                }
            })
        ||| (r matches Err(er) && read_forms_rel(n.children@, 0, Err(er)))
    } else {
        // A tag or another wrapper: the decorated form alone, nothing for an
        // empty wrapper, a list when several forms appear.
        ||| (exists|vs: Seq<Value>|
            {
                &&& #[trigger] forms_seen(vs)
                &&& read_forms_rel(n.children@, 0, Ok(vs))
                &&& (vs.len() == 1 ==> (r matches Ok(Some(rv)) && rv == vs[0]))
                &&& (vs.len() == 0 ==> (r matches Ok(Some(rv)) && rv is Nil))
                &&& (vs.len() > 1 ==> (r matches Ok(Some(rv)) && (rv matches Value::List(items)
                    && items@ == vs)))
            })
        ||| (r matches Err(er) && read_forms_rel(n.children@, 0, Err(er)))
    }
}


/// Replacing the first entry whose key structurally equals `k` is how an
/// insertion lands when the key is present.
pub proof fn lemma_map_put_found(es: Seq<(Value, Value)>, k: Value, v: Value, j: int)
    requires
        0 <= j < es.len(),
        crate::value::val_eq(es[j].0, k),
        forall|i: int| 0 <= i < j ==> !crate::value::val_eq((#[trigger] es[i]).0, k),
    ensures
        map_put(es, k, v) == es.update(j, (k, v)),
    decreases j,
{
    if j == 0 {
        assert(map_put(es, k, v) =~= es.update(0, (k, v)));
    } else {
        lemma_map_put_found(es.drop_first(), k, v, j - 1);
        assert(es.drop_first().update(j - 1, (k, v)) =~= es.update(j, (k, v)).drop_first());
        assert(map_put(es, k, v) =~= es.update(j, (k, v)));
    }
}

/// Appending is how an insertion lands when the key is absent.
pub proof fn lemma_map_put_absent(es: Seq<(Value, Value)>, k: Value, v: Value)
    requires
        forall|i: int| 0 <= i < es.len() ==> !crate::value::val_eq((#[trigger] es[i]).0, k),
    ensures
        map_put(es, k, v) == es.push((k, v)),
    decreases es.len(),
{
    if es.len() == 0 {
        assert(map_put(es, k, v) =~= es.push((k, v)));
    } else {
        lemma_map_put_absent(es.drop_first(), k, v);
        assert(es.drop_first().push((k, v)) =~= es.push((k, v)).drop_first());
        assert(map_put(es, k, v) =~= es.push((k, v)));
    }
}

/// Whether a child element is a form for the reader.
fn elem_is_reader_form(e: &SyntaxElement) -> (b: bool)
    ensures
        b == is_reader_form(*e),
{
    match e {
        SyntaxElement::Node(n) => n.kind != SyntaxKind::Comment && n.kind != SyntaxKind::Discard
            && n.kind != SyntaxKind::Whitespace,
        SyntaxElement::Token(_) => false,
    }
}

/// Past the last child there are no forms left.
pub proof fn lemma_rf_base(cs: Seq<SyntaxElement>, k: int, vs: Seq<Value>)
    requires
        k >= cs.len(),
        vs.len() == 0,
    ensures
        read_forms_rel(cs, k, Ok(vs)),
{
}

/// A child that is not a form does not contribute.
pub proof fn lemma_rf_skip(cs: Seq<SyntaxElement>, k: int, out: Result<Seq<Value>, EvalError>)
    requires
        0 <= k < cs.len(),
        !is_reader_form(cs[k]),
        read_forms_rel(cs, k + 1, out),
    ensures
        read_forms_rel(cs, k, out),
{
}

/// A form that reads to a value contributes it in front of the rest.
pub proof fn lemma_rf_cons(
    cs: Seq<SyntaxElement>,
    k: int,
    ch: SyntaxNode,
    v: Value,
    rest: Seq<Value>,
    vs: Seq<Value>,
)
    requires
        0 <= k < cs.len(),
        is_reader_form(cs[k]),
        cs[k] == SyntaxElement::Node(ch),
        read_node_rel(ch, Ok(Some(v))),
        read_forms_rel(cs, k + 1, Ok(rest)),
        vs == seq![v] + rest,
    ensures
        read_forms_rel(cs, k, Ok(vs)),
{
    assert(vs[0] == v);
    assert(vs.drop_first() =~= rest);
}

/// A form that fails stops the reading with its error.
pub proof fn lemma_rf_err_head(cs: Seq<SyntaxElement>, k: int, ch: SyntaxNode, er: EvalError)
    requires
        0 <= k < cs.len(),
        is_reader_form(cs[k]),
        cs[k] == SyntaxElement::Node(ch),
        read_node_rel(ch, Err(er)),
    ensures
        read_forms_rel(cs, k, Err(er)),
{
}

/// A later form's error passes a successful earlier form.
pub proof fn lemma_rf_err_rest(
    cs: Seq<SyntaxElement>,
    k: int,
    ch: SyntaxNode,
    v: Value,
    er: EvalError,
)
    requires
        0 <= k < cs.len(),
        is_reader_form(cs[k]),
        cs[k] == SyntaxElement::Node(ch),
        read_node_rel(ch, Ok(Some(v))),
        read_forms_rel(cs, k + 1, Err(er)),
    ensures
        read_forms_rel(cs, k, Err(er)),
{
    assert(value_seen(v));
}

/// A form child never reads to nothing: only trivia and discards do, and
/// they are not form children.
pub proof fn lemma_rf_some(ch: SyntaxNode, r: Result<Option<Value>, EvalError>)
    requires
        ch.kind != SyntaxKind::Comment,
        ch.kind != SyntaxKind::Discard,
        ch.kind != SyntaxKind::Whitespace,
        read_node_rel(ch, r),
    ensures
        r is Ok ==> r->Ok_0 is Some,
{
}

/// A list node reads to the list of its form children's values.
pub proof fn lemma_rn_list(n: SyntaxNode, vs: Seq<Value>, r: Result<Option<Value>, EvalError>)
    requires
        n.kind == SyntaxKind::List,
        read_forms_rel(n.children@, 0, Ok(vs)),
        r matches Ok(Some(rv)) && (rv matches Value::List(items) && items@ == vs),
    ensures
        read_node_rel(n, r),
{
}

/// A vector node reads to the vector of its form children's values.
pub proof fn lemma_rn_vector(n: SyntaxNode, vs: Seq<Value>, r: Result<Option<Value>, EvalError>)
    requires
        n.kind == SyntaxKind::Vector,
        read_forms_rel(n.children@, 0, Ok(vs)),
        r matches Ok(Some(rv)) && (rv matches Value::Vector(items) && items@ == vs),
    ensures
        read_node_rel(n, r),
{
}

/// A map node with evenly many form children reads to the mapping their
/// pairs build.
pub proof fn lemma_rn_map_ok(n: SyntaxNode, vs: Seq<Value>, r: Result<Option<Value>, EvalError>)
    requires
        n.kind == SyntaxKind::MapLit,
        read_forms_rel(n.children@, 0, Ok(vs)),
        vs.len() % 2 == 0,
        r matches Ok(Some(rv)) && (rv matches Value::MapVal(m) && m.entries@ == pairs_fold(
            vs,
            vs.len() as int / 2,
        )),
    ensures
        read_node_rel(n, r),
{
    assert(forms_seen(vs));
}

/// A map node with an odd number of form children is rejected.
pub proof fn lemma_rn_map_odd(n: SyntaxNode, vs: Seq<Value>, r: Result<Option<Value>, EvalError>)
    requires
        n.kind == SyntaxKind::MapLit,
        read_forms_rel(n.children@, 0, Ok(vs)),
        vs.len() % 2 == 1,
        r matches Err(er) && (er matches EvalError::SyntaxError(m) && m@
            == "Map literal must have an even number of forms"@),
    ensures
        read_node_rel(n, r),
{
    assert(forms_seen(vs));
}

/// A set node reads to its form children's values with duplicates
/// coalesced.
pub proof fn lemma_rn_set(n: SyntaxNode, vs: Seq<Value>, r: Result<Option<Value>, EvalError>)
    requires
        n.kind == SyntaxKind::SetLit,
        read_forms_rel(n.children@, 0, Ok(vs)),
        r matches Ok(Some(rv)) && (rv matches Value::SetVal(sv) && sv.items@ == sets_fold(
            vs,
            vs.len() as int,
        )),
    ensures
        read_node_rel(n, r),
{
    assert(forms_seen(vs));
}

/// A reader-macro node reads to the canonical list form headed by its
/// alias symbol.
pub proof fn lemma_rn_quote(n: SyntaxNode, vs: Seq<Value>, r: Result<Option<Value>, EvalError>)
    requires
        n.kind == SyntaxKind::Quote || n.kind == SyntaxKind::Backtick || n.kind
            == SyntaxKind::Unquote || n.kind == SyntaxKind::UnquoteSplicing,
        read_forms_rel(n.children@, 0, Ok(vs)),
        r matches Ok(Some(rv)),
        r->Ok_0 is Some,
        r->Ok_0->0 matches Value::List(items),
        r->Ok_0->0->List_0@.len() == vs.len() + 1,
        r->Ok_0->0->List_0@[0] matches Value::Symbol(sv) && sv@ == quote_alias(n.kind),
        r->Ok_0->0->List_0@.drop_first() == vs,
    ensures
        read_node_rel(n, r),
{
    assert(forms_seen(vs));
}

/// A metadata node reads to its decorated form alone.
pub proof fn lemma_rn_meta_ok(n: SyntaxNode, vs: Seq<Value>, r: Result<Option<Value>, EvalError>)
    requires
        n.kind == SyntaxKind::Meta,
        read_forms_rel(n.children@, 0, Ok(vs)),
        vs.len() >= 1,
        r matches Ok(Some(rv)) && rv == vs.last(),
    ensures
        read_node_rel(n, r),
{
    assert(forms_seen(vs));
}

/// A metadata node with nothing to decorate is rejected.
pub proof fn lemma_rn_meta_empty(
    n: SyntaxNode,
    vs: Seq<Value>,
    r: Result<Option<Value>, EvalError>,
)
    requires
        n.kind == SyntaxKind::Meta,
        read_forms_rel(n.children@, 0, Ok(vs)),
        vs.len() == 0,
        r matches Err(er) && (er matches EvalError::SyntaxError(m) && m@
            == "Empty metadata form"@),
    ensures
        read_node_rel(n, r),
{
    assert(forms_seen(vs));
}

/// The kinds whose reading goes through their form children.
pub open spec fn is_wrapper_kind(kind: SyntaxKind) -> bool {
    &&& kind != SyntaxKind::NumberLit
    &&& kind != SyntaxKind::StringLit
    &&& kind != SyntaxKind::SymbolLit
    &&& kind != SyntaxKind::KeywordLit
    &&& kind != SyntaxKind::CharacterLit
    &&& kind != SyntaxKind::Discard
    &&& kind != SyntaxKind::Comment
    &&& kind != SyntaxKind::Whitespace
    &&& kind != SyntaxKind::Error
}

/// An error among the form children stops any wrapper node with that
/// error.
pub proof fn lemma_rn_forms_err(n: SyntaxNode, er: EvalError)
    requires
        is_wrapper_kind(n.kind),
        read_forms_rel(n.children@, 0, Err(er)),
    ensures
        read_node_rel(n, Err(er)),
{
}

/// The root reads to its only form, or to the list of all its forms.
pub proof fn lemma_rn_root(n: SyntaxNode, vs: Seq<Value>, r: Result<Option<Value>, EvalError>)
    requires
        n.kind == SyntaxKind::Root,
        read_forms_rel(n.children@, 0, Ok(vs)),
        vs.len() == 1 ==> (r matches Ok(Some(rv)) && rv == vs[0]),
        vs.len() != 1 ==> (r matches Ok(Some(rv)) && (rv matches Value::List(items) && items@
            == vs)),
    ensures
        read_node_rel(n, r),
{
    assert(forms_seen(vs));
}

/// Any other wrapper reads to its only form, to nil when empty, or to the
/// list of its forms.
pub proof fn lemma_rn_other(n: SyntaxNode, vs: Seq<Value>, r: Result<Option<Value>, EvalError>)
    requires
        is_wrapper_kind(n.kind),
        n.kind != SyntaxKind::Root,
        n.kind != SyntaxKind::List,
        n.kind != SyntaxKind::Vector,
        n.kind != SyntaxKind::MapLit,
        n.kind != SyntaxKind::SetLit,
        n.kind != SyntaxKind::Quote,
        n.kind != SyntaxKind::Backtick,
        n.kind != SyntaxKind::Unquote,
        n.kind != SyntaxKind::UnquoteSplicing,
        n.kind != SyntaxKind::Meta,
        read_forms_rel(n.children@, 0, Ok(vs)),
        vs.len() == 1 ==> (r matches Ok(Some(rv)) && rv == vs[0]),
        vs.len() == 0 ==> (r matches Ok(Some(rv)) && rv is Nil),
        vs.len() > 1 ==> (r matches Ok(Some(rv)) && (rv matches Value::List(items) && items@
            == vs)),
    ensures
        read_node_rel(n, r),
{
    assert(forms_seen(vs));
}

/// Reads the form children of `cs` from position `k` onward, in order,
/// stopping at the first form that fails.
fn read_forms(cs: &Vec<SyntaxElement>, k: usize) -> (r: Result<Vec<Value>, EvalError>)
    requires
        k <= cs@.len(),
    ensures
        match r {
            Ok(vs) => read_forms_rel(cs@, k as int, Ok(vs@)),
            Err(er) => read_forms_rel(cs@, k as int, Err(er)),
        },
    decreases cs@, cs@.len() - k, 1int,
{
    if k >= cs.len() {
        let vs: Vec<Value> = Vec::new();
        proof {
            lemma_rf_base(cs@, k as int, vs@);
        }
        return Ok(vs);
    }
    let e = &cs[k];
    if !elem_is_reader_form(e) {
        let res = read_forms(cs, k + 1);
        proof {
            match &res {
                Ok(vs2) => lemma_rf_skip(
                    cs@,
                    k as int,
                    Result::<Seq<Value>, EvalError>::Ok(vs2@),
                ),
                Err(er) => lemma_rf_skip(
                    cs@,
                    k as int,
                    Result::<Seq<Value>, EvalError>::Err(*er),
                ),
            }
        }
        return res;
    }
    match e {
        SyntaxElement::Node(n) => {
            match read_node(n) {
                Err(er) => {
                    proof {
                        lemma_rf_err_head(cs@, k as int, *n, er);
                    }
                    Err(er)
                },
                Ok(opt) => {
                    match opt {
                        Some(v) => {
                            let ghost vg = v;
                            match read_forms(cs, k + 1) {
                                Ok(rest) => {
                                    let ghost restg = rest@;
                                    let mut vs = rest;
                                    vs.insert(0, v);
                                    proof {
                                        assert(vs@ =~= seq![vg] + restg);
                                        lemma_rf_cons(cs@, k as int, *n, vg, restg, vs@);
                                    }
                                    Ok(vs)
                                },
                                Err(er) => {
                                    proof {
                                        lemma_rf_err_rest(cs@, k as int, *n, vg, er);
                                    }
                                    Err(er)
                                },
                            }
                        },
                        None => {
                            proof {
                                lemma_rf_some(
                                    *n,
                                    Result::<Option<Value>, EvalError>::Ok(None),
                                );
                            }
                            Err(EvalError::SyntaxError(String::new()))
                        },
                    }
                },
            }
        },
        SyntaxElement::Token(_) => {
            proof {
                assert(false);
            }
            Err(EvalError::SyntaxError(String::new()))
        },
    }
}

/// Reads one node of the tree into the value it denotes, or nothing for a
/// discarded form or trivia, or the error it carries.
fn read_node(n: &SyntaxNode) -> (r: Result<Option<Value>, EvalError>)
    ensures
        read_node_rel(*n, r),
    decreases *n, 0int, 0int,
{
    let kind = n.kind;
    if kind == SyntaxKind::NumberLit {
        let text = node_text_exec(n);
        match parse_number_text(text.as_str()) {
            Some(v) => Ok(Some(Value::Number(v))),
            None => {
                let mut m = String::from_str("Invalid number: ");
                m.append(text.as_str());
                Err(EvalError::SyntaxError(m))
            },
        }
    } else if kind == SyntaxKind::StringLit {
        let text = node_text_exec(n);
        let tn = text.as_str().unicode_len();
        let content: String = if tn >= 2 {
            String::from_str(text.as_str().substring_char(1, tn - 1))
        } else {
            String::new()
        };
        proof {
            if tn >= 2 {
                assert(content@ =~= node_text(*n).subrange(1, node_text(*n).len() - 1));
            }
        }
        match unescape_from(content.as_str(), 0) {
            Some(u) => {
                proof {
                    assert(content@.subrange(0, content@.len() as int) =~= content@);
                }
                Ok(Some(Value::String(u)))
            },
            None => {
                proof {
                    assert(content@.subrange(0, content@.len() as int) =~= content@);
                }
                Err(EvalError::SyntaxError(String::from_str("Invalid string escape")))
            },
        }
    } else if kind == SyntaxKind::SymbolLit {
        let text = node_text_exec(n);
        if text == String::from_str("nil") {
            Ok(Some(Value::Nil))
        } else if text == String::from_str("true") {
            Ok(Some(Value::Boolean(true)))
        } else if text == String::from_str("false") {
            Ok(Some(Value::Boolean(false)))
        } else {
            Ok(Some(Value::Symbol(text)))
        }
    } else if kind == SyntaxKind::KeywordLit {
        let text = node_text_exec(n);
        let tn = text.as_str().unicode_len();
        let content: String = if tn >= 1 && text.as_str().get_char(0) == ':' {
            let c = String::from_str(text.as_str().substring_char(1, tn));
            proof {
                assert(c@ =~= node_text(*n).drop_first());
            }
            c
        } else {
            text
        };
        Ok(Some(Value::Keyword(content)))
    } else if kind == SyntaxKind::CharacterLit {
        let text = node_text_exec(n);
        match parse_character_text(text.as_str()) {
            Some(c) => {
                let mut sv = String::new();
                push_char(&mut sv, c);
                Ok(Some(Value::String(sv)))
            },
            None => {
                let mut m = String::from_str("Invalid character literal: ");
                m.append(text.as_str());
                Err(EvalError::SyntaxError(m))
            },
        }
    } else if kind == SyntaxKind::List {
        match read_forms(&n.children, 0) {
            Ok(vs) => {
                let ghost vsg = vs@;
                let out = Value::List(vs);
                proof {
                    lemma_rn_list(
                        *n,
                        vsg,
                        Result::<Option<Value>, EvalError>::Ok(Some(out)),
                    );
                }
                Ok(Some(out))
            },
            Err(er) => {
                proof {
                    lemma_rn_forms_err(*n, er);
                }
                Err(er)
            },
        }
    } else if kind == SyntaxKind::Vector {
        match read_forms(&n.children, 0) {
            Ok(vs) => {
                let ghost vsg = vs@;
                let out = Value::Vector(vs);
                proof {
                    lemma_rn_vector(
                        *n,
                        vsg,
                        Result::<Option<Value>, EvalError>::Ok(Some(out)),
                    );
                }
                Ok(Some(out))
            },
            Err(er) => {
                proof {
                    lemma_rn_forms_err(*n, er);
                }
                Err(er)
            },
        }
    } else if kind == SyntaxKind::MapLit {
        match read_forms(&n.children, 0) {
            Ok(vs) => {
                let ghost vsg = vs@;
                if vs.len() % 2 == 1 {
                    let er = EvalError::SyntaxError(
                        String::from_str("Map literal must have an even number of forms"),
                    );
                    proof {
                        lemma_rn_map_odd(
                            *n,
                            vsg,
                            Result::<Option<Value>, EvalError>::Err(er),
                        );
                    }
                    Err(er)
                } else {
                    let mut rest = vs;
                    let total = rest.len();
                    let mut entries: Vec<(Value, Value)> = Vec::new();
                    let mut p: usize = 0;
                    proof {
                        assert(vsg.len() == total);
                        assert(rest@ =~= vsg.subrange(0, vsg.len() as int));
                    }
                    while rest.len() >= 2
                        invariant
                            vsg.len() <= usize::MAX,
                            vsg.len() % 2 == 0,
                            2 * p <= vsg.len(),
                            rest@ =~= vsg.subrange(2 * p as int, vsg.len() as int),
                            entries@ == pairs_fold(vsg, p as int),
                        decreases rest@.len(),
                    {
                        let ky = rest.remove(0);
                        let vl = rest.remove(0);
                        proof {
                            assert(ky == vsg[2 * p as int]);
                            assert(vl == vsg[2 * p as int + 1]);
                        }
                        let ghost before = entries@;
                        let en = entries.len();
                        let mut j: usize = 0;
                        let mut found = false;
                        while !found && j < en
                            invariant
                                0 <= j <= en,
                                en == entries@.len(),
                                entries@ == before,
                                !found ==> forall|t: int|
                                    0 <= t < j ==> !crate::value::val_eq(
                                        (#[trigger] before[t]).0,
                                        ky,
                                    ),
                                found ==> 0 <= j < en && crate::value::val_eq(
                                    before[j as int].0,
                                    ky,
                                ) && forall|t: int|
                                    0 <= t < j ==> !crate::value::val_eq(
                                        (#[trigger] before[t]).0,
                                        ky,
                                    ),
                            decreases en - j + (if found {
                                0int
                            } else {
                                1int
                            }),
                        {
                            if crate::value::value_eq(&entries[j].0, &ky) {
                                found = true;
                            } else {
                                j = j + 1;
                            }
                        }
                        if found {
                            entries.set(j, (ky, vl));
                            proof {
                                lemma_map_put_found(
                                    before,
                                    vsg[2 * p as int],
                                    vsg[2 * p as int + 1],
                                    j as int,
                                );
                            }
                        } else {
                            entries.push((ky, vl));
                            proof {
                                lemma_map_put_absent(
                                    before,
                                    vsg[2 * p as int],
                                    vsg[2 * p as int + 1],
                                );
                            }
                        }
                        p = p + 1;
                        proof {
                            assert(rest@ =~= vsg.subrange(2 * p as int, vsg.len() as int));
                        }
                    }
                    proof {
                        assert(rest@.len() == 0);
                        assert(2 * p == vsg.len());
                    }
                    let out = Value::MapVal(crate::value::ValueMap { entries });
                    proof {
                        lemma_rn_map_ok(
                            *n,
                            vsg,
                            Result::<Option<Value>, EvalError>::Ok(Some(out)),
                        );
                    }
                    Ok(Some(out))
                }
            },
            Err(er) => {
                proof {
                    lemma_rn_forms_err(*n, er);
                }
                Err(er)
            },
        }
    } else if kind == SyntaxKind::SetLit {
        match read_forms(&n.children, 0) {
            Ok(vs) => {
                let ghost vsg = vs@;
                let mut rest = vs;
                let total = rest.len();
                let mut items: Vec<Value> = Vec::new();
                let mut i: usize = 0;
                proof {
                    assert(vsg.len() == total);
                    assert(rest@ =~= vsg.subrange(0, vsg.len() as int));
                }
                while rest.len() >= 1
                    invariant
                        vsg.len() <= usize::MAX,
                        i <= vsg.len(),
                        rest@ =~= vsg.subrange(i as int, vsg.len() as int),
                        items@ == sets_fold(vsg, i as int),
                    decreases rest@.len(),
                {
                    let v = rest.remove(0);
                    proof {
                        assert(v == vsg[i as int]);
                    }
                    let ghost before = items@;
                    let il = items.len();
                    let mut j: usize = 0;
                    let mut found = false;
                    while !found && j < il
                        invariant
                            0 <= j <= il,
                            il == items@.len(),
                            items@ == before,
                            !found ==> forall|t: int|
                                0 <= t < j ==> !crate::value::val_eq(#[trigger] before[t], v),
                            found ==> crate::value::item_matched(before, v),
                        decreases il - j + (if found {
                            0int
                        } else {
                            1int
                        }),
                    {
                        if crate::value::value_eq(&items[j], &v) {
                            found = true;
                        } else {
                            j = j + 1;
                        }
                    }
                    if found {
                        proof {
                            assert(set_put(before, v) == before);
                        }
                    } else {
                        proof {
                            assert(!crate::value::item_matched(before, v));
                        }
                        items.push(v);
                    }
                    i = i + 1;
                    proof {
                        assert(rest@ =~= vsg.subrange(i as int, vsg.len() as int));
                    }
                }
                proof {
                    assert(i == vsg.len());
                }
                let out = Value::SetVal(crate::value::ValueSet { items });
                proof {
                    lemma_rn_set(*n, vsg, Result::<Option<Value>, EvalError>::Ok(Some(out)));
                }
                Ok(Some(out))
            },
            Err(er) => {
                proof {
                    lemma_rn_forms_err(*n, er);
                }
                Err(er)
            },
        }
    } else if kind == SyntaxKind::Quote || kind == SyntaxKind::Backtick || kind
        == SyntaxKind::Unquote || kind == SyntaxKind::UnquoteSplicing {
        let alias: &str = if kind == SyntaxKind::Quote {
            "quote"
        } else if kind == SyntaxKind::Backtick {
            "quasiquote"
        } else if kind == SyntaxKind::Unquote {
            "unquote"
        } else {
            "unquote-splicing"
        };
        match read_forms(&n.children, 0) {
            Ok(vs) => {
                let ghost vsg = vs@;
                let mut items = vs;
                items.insert(0, Value::Symbol(String::from_str(alias)));
                proof {
                    assert(items@.drop_first() =~= vsg);
                }
                let out = Value::List(items);
                proof {
                    lemma_rn_quote(
                        *n,
                        vsg,
                        Result::<Option<Value>, EvalError>::Ok(Some(out)),
                    );
                }
                Ok(Some(out))
            },
            Err(er) => {
                proof {
                    lemma_rn_forms_err(*n, er);
                }
                Err(er)
            },
        }
    } else if kind == SyntaxKind::Meta {
        match read_forms(&n.children, 0) {
            Ok(vs) => {
                let ghost vsg = vs@;
                let mut items = vs;
                if items.len() >= 1 {
                    match items.pop() {
                        Some(last) => {
                            proof {
                                assert(last == vsg.last());
                                lemma_rn_meta_ok(
                                    *n,
                                    vsg,
                                    Result::<Option<Value>, EvalError>::Ok(Some(last)),
                                );
                            }
                            Ok(Some(last))
                        },
                        None => {
                            proof {
                                assert(false);
                            }
                            Err(EvalError::SyntaxError(String::new()))
                        },
                    }
                } else {
                    let er = EvalError::SyntaxError(String::from_str("Empty metadata form"));
                    proof {
                        lemma_rn_meta_empty(
                            *n,
                            vsg,
                            Result::<Option<Value>, EvalError>::Err(er),
                        );
                    }
                    Err(er)
                }
            },
            Err(er) => {
                proof {
                    lemma_rn_forms_err(*n, er);
                }
                Err(er)
            },
        }
    } else if kind == SyntaxKind::Discard || kind == SyntaxKind::Comment || kind
        == SyntaxKind::Whitespace {
        Ok(None)
    } else if kind == SyntaxKind::Error {
        Err(EvalError::SyntaxError(String::from_str("Erroneous syntax node")))
    } else if kind == SyntaxKind::Root {
        match read_forms(&n.children, 0) {
            Ok(vs) => {
                let ghost vsg = vs@;
                let mut items = vs;
                if items.len() == 1 {
                    match items.pop() {
                        Some(only) => {
                            proof {
                                assert(only == vsg[0]);
                                lemma_rn_root(
                                    *n,
                                    vsg,
                                    Result::<Option<Value>, EvalError>::Ok(Some(only)),
                                );
                            }
                            Ok(Some(only))
                        },
                        None => {
                            proof {
                                assert(false);
                            }
                            Err(EvalError::SyntaxError(String::new()))
                        },
                    }
                } else {
                    let out = Value::List(items);
                    proof {
                        lemma_rn_root(
                            *n,
                            vsg,
                            Result::<Option<Value>, EvalError>::Ok(Some(out)),
                        );
                    }
                    Ok(Some(out))
                }
            },
            Err(er) => {
                proof {
                    lemma_rn_forms_err(*n, er);
                }
                Err(er)
            },
        }
    } else {
        match read_forms(&n.children, 0) {
            Ok(vs) => {
                let ghost vsg = vs@;
                let mut items = vs;
                if items.len() == 1 {
                    match items.pop() {
                        Some(only) => {
                            proof {
                                assert(only == vsg[0]);
                                lemma_rn_other(
                                    *n,
                                    vsg,
                                    Result::<Option<Value>, EvalError>::Ok(Some(only)),
                                );
                            }
                            Ok(Some(only))
                        },
                        None => {
                            proof {
                                assert(false);
                            }
                            Err(EvalError::SyntaxError(String::new()))
                        },
                    }
                } else if items.len() == 0 {
                    proof {
                        lemma_rn_other(
                            *n,
                            vsg,
                            Result::<Option<Value>, EvalError>::Ok(Some(Value::Nil)),
                        );
                    }
                    Ok(Some(Value::Nil))
                } else {
                    let out = Value::List(items);
                    proof {
                        lemma_rn_other(
                            *n,
                            vsg,
                            Result::<Option<Value>, EvalError>::Ok(Some(out)),
                        );
                    }
                    Ok(Some(out))
                }
            },
            Err(er) => {
                proof {
                    lemma_rn_forms_err(*n, er);
                }
                Err(er)
            },
        }
    }
}

/// Reads a syntax node and converts it to a value; a discarded form reads
/// to nil.
pub fn read(node: &SyntaxNode) -> (r: Result<Value, EvalError>)
    ensures
        match r {
            Ok(v) => read_node_rel(*node, Ok(Some(v))) || (v is Nil && read_node_rel(
                *node,
                Ok(None),
            )),
            Err(e) => read_node_rel(*node, Err(e)),
        },
{
    match read_node(node) {
        Ok(Some(v)) => Ok(v),
        Ok(None) => Ok(Value::Nil),
        Err(e) => Err(e),
    }
}


impl SyntaxNode {
    /// The text this node covers: the in-order concatenation of its leaves'
    /// texts.
    pub fn text(&self) -> (r: String)
        ensures
            r@ == node_text(*self),
    {
        node_text_exec(self)
    }
}

} // verus!
