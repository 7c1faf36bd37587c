//! Debug output: values render in an unambiguous S-expression form, and
//! syntax trees pretty-print as a tree of kind-and-range lines with leaves
//! showing their literal text in quotes.

use vstd::prelude::*;
use vstd::string::StrSliceExecFns;
use vstd::string::StringExecFns;

use crate::reader::push_char;
use crate::syntax::SyntaxKind;
use crate::syntax::syntax_kind_of_token;
use crate::tree::SyntaxElement;
use crate::tree::SyntaxNode;
use crate::value::Value;

verus! {

/// The digit character for one decimal digit.
pub open spec fn digit_char(d: int) -> char {
    ((48 + d) as u8) as char
}

/// The decimal digits of a non-negative number, most significant first.
pub open spec fn dec_digits(n: nat) -> Seq<char>
    decreases n,
{
    if n < 10 {
        seq![digit_char(n as int)]
    } else {
        dec_digits(n / 10) + seq![digit_char((n % 10) as int)]
    }
}

/// The decimal text of an integer: a minus sign and the digits of its
/// magnitude.
pub open spec fn int_text(n: int) -> Seq<char> {
    if n < 0 {
        seq!['-'] + dec_digits((-n) as nat)
    } else {
        dec_digits(n as nat)
    }
}

/// Appends the decimal digits of `m`.
fn push_u64_dec(out: &mut String, m: u64)
    ensures
        final(out)@ == old(out)@ + dec_digits(m as nat),
    decreases m,
{
    if m >= 10 {
        push_u64_dec(out, m / 10);
    }
    let d: u8 = (m % 10) as u8;
    push_char(out, (48 + d) as char);
}

/// The decimal text of a signed 64-bit number.
pub fn i64_to_string(n: i64) -> (s: String)
    ensures
        s@ == int_text(n as int),
{
    let mut out = String::new();
    if n < 0 {
        push_char(&mut out, '-');
        let m: u64 = ((-(n + 1)) as u64) + 1;
        push_u64_dec(&mut out, m);
        proof {
            assert(out@ =~= int_text(n as int));
        }
    } else {
        push_u64_dec(&mut out, n as u64);
    }
    out
}

/// The decimal text of a machine-sized number.
pub fn usize_to_string(n: usize) -> (s: String)
    ensures
        s@ == int_text(n as int),
{
    let mut out = String::new();
    push_u64_dec(&mut out, n as u64);
    out
}

/// How a value renders: nil, booleans and numbers in natural notation,
/// strings quoted, symbols bare, keywords with their colon, collections in
/// their delimiters, functions and macros as opaque markers.
pub open spec fn render_val(v: Value) -> Seq<char>
    decreases v, 0int,
{
    match v {
        Value::Nil => "nil"@,
        Value::Boolean(b) => if b {
            "true"@
        } else {
            "false"@
        },
        Value::Number(n) => int_text(n as int),
        Value::String(s) => seq!['"'] + s@ + seq!['"'],
        Value::Symbol(s) => s@,
        Value::Keyword(k) => seq![':'] + k@,
        Value::List(xs) => seq!['('] + render_items(xs@, xs@.len() as int) + seq![')'],
        Value::Vector(xs) => seq!['['] + render_items(xs@, xs@.len() as int) + seq![']'],
        Value::MapVal(m) => seq!['{'] + render_entries(m.entries@, m.entries@.len() as int)
            + seq!['}'],
        Value::SetVal(s) => seq!['#', '{'] + render_items(s.items@, s.items@.len() as int)
            + seq!['}'],
        Value::Function(_) => "#<function>"@,
        Value::Macro(_) => "#<macro>"@,
    }
}

/// The rendering of the first `i` values, separated by spaces.
pub open spec fn render_items(xs: Seq<Value>, i: int) -> Seq<char>
    decreases xs, i,
{
    if i <= 0 || i > xs.len() {
        Seq::empty()
    } else {
        render_items(xs, i - 1) + (if i - 1 > 0 {
            seq![' ']
        } else {
            Seq::empty()
        }) + render_val(xs[i - 1])
    }
}

/// The rendering of the first `i` entries, keys and values alternating,
/// separated by spaces.
pub open spec fn render_entries(es: Seq<(Value, Value)>, i: int) -> Seq<char>
    decreases es, i,
{
    if i <= 0 || i > es.len() {
        Seq::empty()
    } else {
        render_entries(es, i - 1) + (if i - 1 > 0 {
            seq![' ']
        } else {
            Seq::empty()
        }) + render_entry(es[i - 1])
    }
}

/// The rendering of one entry: the key, a space, and the value.
pub open spec fn render_entry(e: (Value, Value)) -> Seq<char>
    decreases e, 1int,
{
    render_val(e.0) + seq![' '] + render_val(e.1)
}

/// Renders a value in its S-expression form.
pub fn render(v: &Value) -> (r: String)
    ensures
        r@ == render_val(*v),
    decreases *v, 1int,
{
    match v {
        Value::Nil => String::from_str("nil"),
        Value::Boolean(b) => {
            if *b {
                String::from_str("true")
            } else {
                String::from_str("false")
            }
        },
        Value::Number(n) => i64_to_string(*n),
        Value::String(s) => {
            let mut out = String::new();
            push_char(&mut out, '"');
            out.append(s.as_str());
            push_char(&mut out, '"');
            proof {
                assert(out@ =~= render_val(*v));
            }
            out
        },
        Value::Symbol(s) => s.clone(),
        Value::Keyword(k) => {
            let mut out = String::new();
            push_char(&mut out, ':');
            out.append(k.as_str());
            proof {
                assert(out@ =~= render_val(*v));
            }
            out
        },
        Value::List(xs) => {
            let mut out = String::new();
            push_char(&mut out, '(');
            render_items_into(xs, &mut out, Ghost(*v));
            push_char(&mut out, ')');
            proof {
                assert(out@ =~= render_val(*v));
            }
            out
        },
        Value::Vector(xs) => {
            let mut out = String::new();
            push_char(&mut out, '[');
            render_items_into(xs, &mut out, Ghost(*v));
            push_char(&mut out, ']');
            proof {
                assert(out@ =~= render_val(*v));
            }
            out
        },
        Value::MapVal(m) => {
            let mut out = String::new();
            push_char(&mut out, '{');
            render_entries_into(&m.entries, &mut out, Ghost(*v));
            push_char(&mut out, '}');
            proof {
                assert(out@ =~= render_val(*v));
            }
            out
        },
        Value::SetVal(s) => {
            let mut out = String::new();
            push_char(&mut out, '#');
            push_char(&mut out, '{');
            render_set_into(&s.items, &mut out, Ghost(*v));
            push_char(&mut out, '}');
            proof {
                assert(out@ =~= render_val(*v));
            }
            out
        },
        Value::Function(_) => String::from_str("#<function>"),
        Value::Macro(_) => String::from_str("#<macro>"),
    }
}

/// Appends the renderings of the entries, keys and values alternating,
/// separated by spaces.
fn render_entries_into(es: &Vec<(Value, Value)>, out: &mut String, owner: Ghost<Value>)
    requires
        owner@ matches Value::MapVal(m) && m.entries == *es,
    ensures
        final(out)@ == old(out)@ + render_entries(es@, es@.len() as int),
    decreases owner@, 0int,
{
    let ghost base = out@;
    let n = es.len();
    let mut i: usize = 0;
    while i < n
        invariant
            0 <= i <= n,
            n == es@.len(),
            owner@ matches Value::MapVal(m) && m.entries == *es,
            out@ == base + render_entries(es@, i as int),
        decreases n - i,
    {
        if i > 0 {
            push_char(out, ' ');
        }
        let pair = &es[i];
        let key_text = render(&pair.0);
        out.append(key_text.as_str());
        push_char(out, ' ');
        let val_text = render(&pair.1);
        out.append(val_text.as_str());
        proof {
            assert(render_entry(es@[i as int]) == render_val(es@[i as int].0) + seq![' ']
                + render_val(es@[i as int].1));
            assert(out@ =~= base + render_entries(es@, i + 1));
        }
        i = i + 1;
    }
}

/// Appends the renderings of the members, separated by spaces.
fn render_set_into(xs: &Vec<Value>, out: &mut String, owner: Ghost<Value>)
    requires
        owner@ matches Value::SetVal(s) && s.items == *xs,
    ensures
        final(out)@ == old(out)@ + render_items(xs@, xs@.len() as int),
    decreases owner@, 0int,
{
    let ghost base = out@;
    let n = xs.len();
    let mut i: usize = 0;
    while i < n
        invariant
            0 <= i <= n,
            n == xs@.len(),
            owner@ matches Value::SetVal(s) && s.items == *xs,
            out@ == base + render_items(xs@, i as int),
        decreases n - i,
    {
        if i > 0 {
            push_char(out, ' ');
        }
        let piece = render(&xs[i]);
        out.append(piece.as_str());
        proof {
            assert(out@ =~= base + render_items(xs@, i + 1));
        }
        i = i + 1;
    }
}

/// Appends the renderings of the values, separated by spaces.
fn render_items_into(xs: &Vec<Value>, out: &mut String, owner: Ghost<Value>)
    requires
        (owner@ matches Value::List(l) && l == *xs) || (owner@ matches Value::Vector(l) && l
            == *xs),
    ensures
        final(out)@ == old(out)@ + render_items(xs@, xs@.len() as int),
    decreases owner@, 0int,
{
    let ghost base = out@;
    let n = xs.len();
    let mut i: usize = 0;
    while i < n
        invariant
            0 <= i <= n,
            n == xs@.len(),
            (owner@ matches Value::List(l) && l == *xs) || (owner@ matches Value::Vector(l)
                && l == *xs),
            out@ == base + render_items(xs@, i as int),
        decreases n - i,
    {
        if i > 0 {
            push_char(out, ' ');
        }
        let piece = render(&xs[i]);
        out.append(piece.as_str());
        proof {
            assert(out@ =~= base + render_items(xs@, i + 1));
        }
        i = i + 1;
    }
}

/// The display name of a syntax kind.
pub open spec fn kind_name(kind: SyntaxKind) -> Seq<char> {
    match kind {
        SyntaxKind::Root => "Root"@,
        SyntaxKind::List => "List"@,
        SyntaxKind::Vector => "Vector"@,
        SyntaxKind::MapLit => "Map"@,
        SyntaxKind::SetLit => "Set"@,
        SyntaxKind::StringLit => "StringLit"@,
        SyntaxKind::NumberLit => "NumberLit"@,
        SyntaxKind::CharacterLit => "CharacterLit"@,
        SyntaxKind::KeywordLit => "KeywordLit"@,
        SyntaxKind::SymbolLit => "SymbolLit"@,
        SyntaxKind::Quote => "Quote"@,
        SyntaxKind::Backtick => "Backtick"@,
        SyntaxKind::Unquote => "Unquote"@,
        SyntaxKind::UnquoteSplicing => "UnquoteSplicing"@,
        SyntaxKind::Deref => "Deref"@,
        SyntaxKind::Meta => "Meta"@,
        SyntaxKind::Tag => "Tag"@,
        SyntaxKind::Discard => "Discard"@,
        SyntaxKind::Comment => "Comment"@,
        SyntaxKind::Whitespace => "Whitespace"@,
        SyntaxKind::Error => "Error"@,
        SyntaxKind::LeftParen => "LeftParen"@,
        SyntaxKind::RightParen => "RightParen"@,
        SyntaxKind::LeftBracket => "LeftBracket"@,
        SyntaxKind::RightBracket => "RightBracket"@,
        SyntaxKind::LeftBrace => "LeftBrace"@,
        SyntaxKind::RightBrace => "RightBrace"@,
        SyntaxKind::String => "String"@,
        SyntaxKind::Number => "Number"@,
        SyntaxKind::Character => "Character"@,
        SyntaxKind::Symbol => "Symbol"@,
        SyntaxKind::Keyword => "Keyword"@,
        SyntaxKind::QuoteToken => "QuoteToken"@,
        SyntaxKind::BacktickToken => "BacktickToken"@,
        SyntaxKind::TildeToken => "TildeToken"@,
        SyntaxKind::TildeAtToken => "TildeAtToken"@,
        SyntaxKind::CaretToken => "CaretToken"@,
        SyntaxKind::HashToken => "HashToken"@,
        SyntaxKind::HashLeftBraceToken => "HashLeftBraceToken"@,
        SyntaxKind::CommaToken => "CommaToken"@,
        SyntaxKind::CommentToken => "CommentToken"@,
        SyntaxKind::WhitespaceToken => "WhitespaceToken"@,
        SyntaxKind::ErrorToken => "ErrorToken"@,
        SyntaxKind::Eof => "Eof"@,
    }
}

/// The display name of a syntax kind.
fn kind_name_str(kind: SyntaxKind) -> (r: &'static str)
    ensures
        r@ == kind_name(kind),
{
    match kind {
        SyntaxKind::Root => "Root",
        SyntaxKind::List => "List",
        SyntaxKind::Vector => "Vector",
        SyntaxKind::MapLit => "Map",
        SyntaxKind::SetLit => "Set",
        SyntaxKind::StringLit => "StringLit",
        SyntaxKind::NumberLit => "NumberLit",
        SyntaxKind::CharacterLit => "CharacterLit",
        SyntaxKind::KeywordLit => "KeywordLit",
        SyntaxKind::SymbolLit => "SymbolLit",
        SyntaxKind::Quote => "Quote",
        SyntaxKind::Backtick => "Backtick",
        SyntaxKind::Unquote => "Unquote",
        SyntaxKind::UnquoteSplicing => "UnquoteSplicing",
        SyntaxKind::Deref => "Deref",
        SyntaxKind::Meta => "Meta",
        SyntaxKind::Tag => "Tag",
        SyntaxKind::Discard => "Discard",
        SyntaxKind::Comment => "Comment",
        SyntaxKind::Whitespace => "Whitespace",
        SyntaxKind::Error => "Error",
        SyntaxKind::LeftParen => "LeftParen",
        SyntaxKind::RightParen => "RightParen",
        SyntaxKind::LeftBracket => "LeftBracket",
        SyntaxKind::RightBracket => "RightBracket",
        SyntaxKind::LeftBrace => "LeftBrace",
        SyntaxKind::RightBrace => "RightBrace",
        SyntaxKind::String => "String",
        SyntaxKind::Number => "Number",
        SyntaxKind::Character => "Character",
        SyntaxKind::Symbol => "Symbol",
        SyntaxKind::Keyword => "Keyword",
        SyntaxKind::QuoteToken => "QuoteToken",
        SyntaxKind::BacktickToken => "BacktickToken",
        SyntaxKind::TildeToken => "TildeToken",
        SyntaxKind::TildeAtToken => "TildeAtToken",
        SyntaxKind::CaretToken => "CaretToken",
        SyntaxKind::HashToken => "HashToken",
        SyntaxKind::HashLeftBraceToken => "HashLeftBraceToken",
        SyntaxKind::CommaToken => "CommaToken",
        SyntaxKind::CommentToken => "CommentToken",
        SyntaxKind::WhitespaceToken => "WhitespaceToken",
        SyntaxKind::ErrorToken => "ErrorToken",
        SyntaxKind::Eof => "Eof",
    }
}

/// Two spaces of indentation for each tree level.
pub open spec fn indent(depth: nat) -> Seq<char>
    decreases depth,
{
    if depth == 0 {
        Seq::empty()
    } else {
        indent((depth - 1) as nat) + seq![' ', ' ']
    }
}

/// How a character appears inside a quoted leaf text: quotes, backslashes
/// and control characters are escaped.
pub open spec fn esc_char(c: char) -> Seq<char> {
    if c == '"' {
        seq!['\\', '"']
    } else if c == '\\' {
        seq!['\\', '\\']
    } else if c == '\n' {
        seq!['\\', 'n']
    } else if c == '\t' {
        seq!['\\', 't']
    } else if c == '\r' {
        seq!['\\', 'r']
    } else {
        seq![c]
    }
}

/// The escaped form of the first `i` characters.
pub open spec fn esc_upto(s: Seq<char>, i: int) -> Seq<char>
    decreases i,
{
    if i <= 0 {
        Seq::empty()
    } else {
        esc_upto(s, i - 1) + esc_char(s[i - 1])
    }
}

/// One line of the tree dump: indentation, the kind's name, and the range.
pub open spec fn dump_head(kind: SyntaxKind, start: int, end: int, depth: nat) -> Seq<char> {
    indent(depth) + kind_name(kind) + seq!['@'] + int_text(start) + seq!['.', '.'] + int_text(end)
}

/// The dump of an element at the given depth: its line, and its children's
/// dumps one level deeper; a leaf's line carries its escaped text in
/// quotes.
pub open spec fn dump_elem_spec(e: SyntaxElement, depth: nat) -> Seq<char>
    decreases e, 0int,
{
    match e {
        SyntaxElement::Token(t) => dump_head(
            syntax_kind_of_token(t.kind),
            t.start as int,
            t.end as int,
            depth,
        ) + seq![' ', '"'] + esc_upto(t.text@, t.text@.len() as int) + seq!['"', '\n'],
        SyntaxElement::Node(n) => dump_head(n.kind, n.start as int, n.end as int, depth)
            + seq!['\n'] + dump_children_spec(n.children@, n.children@.len() as int, (depth
            + 1) as nat),
    }
}

/// The dumps of the first `i` children.
pub open spec fn dump_children_spec(cs: Seq<SyntaxElement>, i: int, depth: nat) -> Seq<char>
    decreases cs, i,
{
    if i <= 0 || i > cs.len() {
        Seq::empty()
    } else {
        dump_children_spec(cs, i - 1, depth) + dump_elem_spec(cs[i - 1], depth)
    }
}

/// Appends the escaped form of a text.
fn push_escaped(out: &mut String, s: &str)
    ensures
        final(out)@ == old(out)@ + esc_upto(s@, s@.len() as int),
{
    let ghost base = out@;
    let n = s.unicode_len();
    let mut i: usize = 0;
    while i < n
        invariant
            0 <= i <= n,
            n == s@.len(),
            out@ == base + esc_upto(s@, i as int),
        decreases n - i,
    {
        let c = s.get_char(i);
        if c == '"' {
            push_char(out, '\\');
            push_char(out, '"');
        } else if c == '\\' {
            push_char(out, '\\');
            push_char(out, '\\');
        } else if c == '\n' {
            push_char(out, '\\');
            push_char(out, 'n');
        } else if c == '\t' {
            push_char(out, '\\');
            push_char(out, 't');
        } else if c == '\r' {
            push_char(out, '\\');
            push_char(out, 'r');
        } else {
            push_char(out, c);
        }
        proof {
            assert(out@ =~= base + esc_upto(s@, i + 1));
        }
        i = i + 1;
    }
}

/// Appends one dump line's head.
fn push_head(out: &mut String, kind: SyntaxKind, start: usize, end: usize, pad: &String, depth: Ghost<nat>)
    requires
        pad@ == indent(depth@),
    ensures
        final(out)@ == old(out)@ + dump_head(kind, start as int, end as int, depth@),
{
    out.append(pad.as_str());
    out.append(kind_name_str(kind));
    push_char(out, '@');
    let st = usize_to_string(start);
    out.append(st.as_str());
    push_char(out, '.');
    push_char(out, '.');
    let en = usize_to_string(end);
    out.append(en.as_str());
}

/// Appends the dump of an element at the given depth; `pad` is the
/// indentation for that depth.
fn push_dump_elem(e: &SyntaxElement, out: &mut String, pad: &String, depth: Ghost<nat>)
    requires
        pad@ == indent(depth@),
    ensures
        final(out)@ == old(out)@ + dump_elem_spec(*e, depth@),
    decreases *e, 0int,
{
    match e {
        SyntaxElement::Token(t) => {
            push_head(out, crate::syntax::token_to_syntax_kind(t.kind), t.start, t.end, pad, depth);
            push_char(out, ' ');
            push_char(out, '"');
            push_escaped(out, t.text.as_str());
            push_char(out, '"');
            push_char(out, '\n');
            proof {
                assert(final(out)@ =~= old(out)@ + dump_elem_spec(*e, depth@));
            }
        },
        SyntaxElement::Node(n) => {
            push_head(out, n.kind, n.start, n.end, pad, depth);
            push_char(out, '\n');
            let mut pad2 = pad.clone();
            pad2.append("  ");
            proof {
                reveal_strlit("  ");
                assert(pad2@ =~= indent((depth@ + 1) as nat));
            }
            let ghost mid = out@;
            let cs = &n.children;
            let m = cs.len();
            let mut i: usize = 0;
            while i < m
                invariant
                    0 <= i <= m,
                    m == cs@.len(),
                    pad2@ == indent((depth@ + 1) as nat),
                    (*e) matches SyntaxElement::Node(nn) && nn.children == *cs,
                    out@ == mid + dump_children_spec(cs@, i as int, (depth@ + 1) as nat),
                decreases m - i,
            {
                push_dump_elem(&cs[i], out, &pad2, Ghost((depth@ + 1) as nat));
                proof {
                    assert(out@ =~= mid + dump_children_spec(cs@, i + 1, (depth@ + 1) as nat));
                }
                i = i + 1;
            }
            proof {
                assert(final(out)@ =~= old(out)@ + dump_elem_spec(*e, depth@));
            }
        },
    }
}

impl SyntaxNode {
    /// Pretty-prints the tree: one line per node or leaf, indented by
    /// depth, leaves showing their literal text in quotes.
    pub fn dump(&self) -> (r: String)
        ensures
            r@ == dump_elem_spec(SyntaxElement::Node(*self), 0),
    {
        let head_kind = self.kind;
        let mut result = String::new();
        let pad0 = String::new();
        proof {
            assert(pad0@ =~= indent(0));
        }
        push_head(&mut result, head_kind, self.start, self.end, &pad0, Ghost(0nat));
        push_char(&mut result, '\n');
        let mut pad1 = String::new();
        pad1.append("  ");
        proof {
            reveal_strlit("  ");
            assert(pad1@ =~= indent(1));
        }
        let ghost mid = result@;
        let cs = &self.children;
        let m = cs.len();
        let mut i: usize = 0;
        while i < m
            invariant
                0 <= i <= m,
                m == cs@.len(),
                cs == &self.children,
                pad1@ == indent(1),
                mid == dump_head(self.kind, self.start as int, self.end as int, 0) + seq!['\n'],
                result@ == mid + dump_children_spec(cs@, i as int, 1),
            decreases m - i,
        {
            push_dump_elem(&cs[i], &mut result, &pad1, Ghost(1nat));
            proof {
                assert(result@ =~= mid + dump_children_spec(cs@, i + 1, 1));
            }
            i = i + 1;
        }
        proof {
            assert(result@ =~= dump_elem_spec(SyntaxElement::Node(*self), 0));
        }
        result
    }
}

impl Value {
    /// Renders this value in its S-expression form.
    pub fn render(&self) -> (r: String)
        ensures
            r@ == render_val(*self),
    {
        render(self)
    }
}

} // verus!
