//! The laws the library states of itself, proved once and for all inputs:
//! the lexer and the tree lose no text, a well-formed tree's ranges follow
//! its leaves, the arithmetic identities and commutativity, and lexical
//! scope resolving through a chain of live frames.

use vstd::prelude::*;

use crate::env::Frame;
use crate::printer::dec_digits;
use crate::printer::digit_char;
use crate::printer::int_text;
use crate::printer::render_val;
use crate::reader::all_digits;
use crate::reader::digit_val;
use crate::reader::digits_val_upto;
use crate::reader::num_value;
use crate::reader::read_node_rel;
use crate::reader::unescape;
use crate::syntax::SyntaxKind;
use crate::tree::SyntaxNode;
use crate::tree::node_text;
use crate::env::env_lookup;
use crate::env::frame_find;
use crate::eval::add_fold;
use crate::eval::builtin_ok;
use crate::eval::mul_fold;
use crate::lexer::texts_concat;
use crate::lexer::token_stream_wf;
use crate::token::Token;
use crate::tree::SyntaxElement;
use crate::tree::elem_end;
use crate::tree::elem_leaves;
use crate::tree::elem_start;
use crate::tree::elem_wf;
use crate::tree::leaves_tile;
use crate::tree::lemma_wf_leaves_tile;
use crate::value::BuiltinOp;
use crate::value::EvalError;
use crate::value::Value;

verus! {

/// Lexer coverage: for any input, the concatenation of the token texts of
/// its stream is the input itself; the `Eof` token contributes nothing, so
/// the statement holds with or without it.
pub proof fn lemma_lexer_coverage(ts: Seq<Token>, s: Seq<char>)
    requires
        token_stream_wf(ts, s),
    ensures
        texts_concat(ts) == s,
{
}

/// Tree losslessness: a well-formed element's leaves tile its range
/// exactly, so the in-order concatenation of its leaf texts is exactly as
/// long as the range it covers; together with the parser's contract the
/// root's text is the parsed input itself.
pub proof fn lemma_tree_lossless(e: SyntaxElement)
    requires
        elem_wf(e),
    ensures
        leaves_tile(elem_leaves(e), elem_start(e), elem_end(e)),
{
    lemma_wf_leaves_tile(e);
}

/// The sum of no numbers is zero.
pub proof fn lemma_sum_identity(r: Result<Value, EvalError>)
    requires
        builtin_ok(BuiltinOp::Add, Seq::empty(), r),
    ensures
        r matches Ok(rv) && (rv matches Value::Number(n) && n == 0),
{
}

/// The product of no numbers is one.
pub proof fn lemma_product_identity(r: Result<Value, EvalError>)
    requires
        builtin_ok(BuiltinOp::Mul, Seq::empty(), r),
    ensures
        r matches Ok(rv) && (rv matches Value::Number(n) && n == 1),
{
}

/// Addition of two numbers is commutative: applying the sum to the
/// arguments in either order returns the same number.
pub proof fn lemma_add_commutes(
    a: i64,
    b: i64,
    r1: Result<Value, EvalError>,
    r2: Result<Value, EvalError>,
)
    requires
        builtin_ok(BuiltinOp::Add, seq![Value::Number(a), Value::Number(b)], r1),
        builtin_ok(BuiltinOp::Add, seq![Value::Number(b), Value::Number(a)], r2),
    ensures
        r1 matches Ok(v1) && (v1 matches Value::Number(n1) && r2 matches Ok(v2) && (v2 matches
            Value::Number(n2) && n1 == n2)),
{
    let ab = seq![Value::Number(a), Value::Number(b)];
    let ba = seq![Value::Number(b), Value::Number(a)];
    assert(crate::eval::first_bad(ab, 2) == -1);
    assert(crate::eval::first_bad(ab, 1) == crate::eval::first_bad(ab, 2));
    assert(crate::eval::first_bad(ab, 0) == crate::eval::first_bad(ab, 1));
    assert(crate::eval::first_bad(ba, 2) == -1);
    assert(crate::eval::first_bad(ba, 1) == crate::eval::first_bad(ba, 2));
    assert(crate::eval::first_bad(ba, 0) == crate::eval::first_bad(ba, 1));
    assert(add_fold(ab, 0) == 0i64);
    assert(add_fold(ab, 1) == vstd::wrapping::i64_specs::wrapping_add(add_fold(ab, 0), a));
    assert(add_fold(ab, 2) == vstd::wrapping::i64_specs::wrapping_add(add_fold(ab, 1), b));
    assert(add_fold(ba, 0) == 0i64);
    assert(add_fold(ba, 1) == vstd::wrapping::i64_specs::wrapping_add(add_fold(ba, 0), b));
    assert(add_fold(ba, 2) == vstd::wrapping::i64_specs::wrapping_add(add_fold(ba, 1), a));
    assert(add_fold(ab, 2) == add_fold(ba, 2));
}

/// Lexical scoping resolves by reference, not by copy: a frame that has no
/// binding of its own for a name and extends an outer frame sees whatever
/// that outer frame holds for the name at lookup time. In particular a
/// binding written to the outer frame after a closure captured its frame is
/// what the closure sees.
pub proof fn lemma_lexical_scoping(fs: Seq<Frame>, c: int, o: int, name: Seq<char>, v: Value)
    requires
        0 <= o < c < fs.len(),
        c <= usize::MAX,
        fs[c].outer == Some(o as usize),
        frame_find(fs[c].bindings@, name) is None,
        frame_find(fs[o].bindings@, name) == Some(v),
    ensures
        env_lookup(fs, c, name) == Some(v),
{
    assert(env_lookup(fs, c, name) == env_lookup(fs, o, name));
}


/// Every character a decimal rendering produces is a decimal digit.
proof fn lemma_dec_digits_are_digits(n: nat)
    ensures
        dec_digits(n).len() >= 1,
        forall|i: int|
            0 <= i < dec_digits(n).len() ==> crate::lexer::is_digit_char(
                #[trigger] dec_digits(n)[i],
            ),
    decreases n,
{
    if n < 10 {
        assert(dec_digits(n) =~= seq![digit_char(n as int)]);
        assert(crate::lexer::is_digit_char(digit_char(n as int)));
    } else {
        lemma_dec_digits_are_digits(n / 10);
        assert(crate::lexer::is_digit_char(digit_char((n % 10) as int)));
        assert forall|i: int| 0 <= i < dec_digits(n).len() implies crate::lexer::is_digit_char(
            #[trigger] dec_digits(n)[i],
        ) by {
            if i < dec_digits(n / 10).len() {
                assert(dec_digits(n)[i] == dec_digits(n / 10)[i]);
            } else {
                assert(dec_digits(n)[i] == digit_char((n % 10) as int));
            }
        }
    }
}

/// A digit value looks only at the first `i` characters.
proof fn lemma_digits_val_upto_prefix(s: Seq<char>, t: Seq<char>, i: int)
    requires
        forall|k: int| 0 <= k < i ==> s[k] == t[k],
    ensures
        digits_val_upto(s, 10, i) == digits_val_upto(t, 10, i),
    decreases i,
{
    if i > 0 {
        lemma_digits_val_upto_prefix(s, t, i - 1);
    }
}

/// Reading back the decimal rendering of a number recovers the number.
proof fn lemma_dec_digits_value(n: nat)
    ensures
        digits_val_upto(dec_digits(n), 10, dec_digits(n).len() as int) == n,
    decreases n,
{
    if n < 10 {
        assert(dec_digits(n) =~= seq![digit_char(n as int)]);
        assert(digit_val(digit_char(n as int)) == n);
        assert(digits_val_upto(dec_digits(n), 10, 0) == 0);
        assert(digits_val_upto(dec_digits(n), 10, 1) == n);
    } else {
        lemma_dec_digits_value(n / 10);
        let prefix = dec_digits(n / 10);
        let whole = dec_digits(n);
        let m = prefix.len() as int;
        assert(whole =~= prefix + seq![digit_char((n % 10) as int)]);
        assert forall|k: int| 0 <= k < m implies prefix[k] == whole[k] by {}
        lemma_digits_val_upto_prefix(prefix, whole, m);
        assert(digits_val_upto(whole, 10, m + 1) == digits_val_upto(whole, 10, m) * 10
            + digit_val(whole[m]));
        assert(whole[m] == digit_char((n % 10) as int));
        assert(digit_val(digit_char((n % 10) as int)) == n % 10);
        assert((n / 10) * 10 + n % 10 == n) by (nonlinear_arith);
    }
}

/// The decimal rendering of a signed number reads back to the number: the
/// printer and the reader's number grammar invert each other.
pub proof fn lemma_number_text_round_trip(x: i64)
    ensures
        num_value(int_text(x as int)) == Some(x as int),
{
    if x >= 0 {
        let s = int_text(x as int);
        assert(s == dec_digits(x as nat));
        lemma_dec_digits_are_digits(x as nat);
        lemma_dec_digits_value(x as nat);
        assert(all_digits(s, 10));
        assert(!crate::lexer::is_digit_char('x') && !crate::lexer::is_digit_char('X'));
        assert(!crate::lexer::is_digit_char('b') && !crate::lexer::is_digit_char('B'));
        assert(!crate::lexer::is_digit_char('N') && !crate::lexer::is_digit_char('n'));
        assert(!crate::lexer::is_digit_char('L') && !crate::lexer::is_digit_char('l'));
        assert(s[0] != '-');
        assert(crate::reader::num_magnitude(s) == Some(x as int));
    } else {
        let s = int_text(x as int);
        let mag = dec_digits((-(x as int)) as nat);
        assert(s == seq!['-'] + mag);
        assert(s[0] == '-');
        lemma_dec_digits_are_digits((-(x as int)) as nat);
        lemma_dec_digits_value((-(x as int)) as nat);
        assert(s.subrange(1, s.len() as int) =~= mag);
        assert(all_digits(mag, 10));
        assert(!crate::lexer::is_digit_char('-'));
        assert(mag[0] != '0' || mag.len() >= 1);
        assert(crate::reader::num_magnitude(mag) == Some(-(x as int)));
        assert(num_value(s) == Some(x as int));
    }
}

/// Unescaping text that holds no backslash returns it unchanged.
pub proof fn lemma_unescape_plain(s: Seq<char>)
    requires
        forall|i: int| 0 <= i < s.len() ==> #[trigger] s[i] != '\\',
    ensures
        unescape(s) == Some(s),
    decreases s.len(),
{
    if s.len() == 0 {
        assert(unescape(s) == Some(Seq::<char>::empty()));
        assert(s =~= Seq::<char>::empty());
    } else {
        assert(s[0] != '\\');
        let rest = s.drop_first();
        assert forall|i: int| 0 <= i < rest.len() implies #[trigger] rest[i] != '\\' by {
            assert(rest[i] == s[i + 1]);
        }
        lemma_unescape_plain(rest);
        assert(seq![s[0]] + rest =~= s);
    }
}

/// Which literal node prints a given literal value: the node kind and text
/// that rendering the value produces.
pub open spec fn prints_literal(n: SyntaxNode, v: Value) -> bool {
    match v {
        Value::Nil => n.kind == SyntaxKind::SymbolLit && node_text(n) == "nil"@,
        Value::Boolean(b) => n.kind == SyntaxKind::SymbolLit && node_text(n) == (if b {
            "true"@
        } else {
            "false"@
        }),
        Value::Number(x) => n.kind == SyntaxKind::NumberLit && node_text(n) == int_text(x as int),
        Value::String(sv) => n.kind == SyntaxKind::StringLit && node_text(n) == render_val(v) && (
        forall|i: int| 0 <= i < sv@.len() ==> #[trigger] sv@[i] != '\\' && sv@[i] != '"'),
        Value::Keyword(_) => n.kind == SyntaxKind::KeywordLit && node_text(n) == render_val(v),
        _ => false,
    }
}

/// Read–eval self-evaluation, at the reader: a literal node carrying the
/// printed form of a nil, boolean, number, plain string or keyword reads
/// back to a value structurally equal to the one printed. Together with the
/// evaluator's contract that such values evaluate to themselves, the
/// printed literal survives the round trip. Strings holding quotes or
/// backslashes are printed verbatim and so are out of this statement.
pub proof fn lemma_literal_round_trip(
    n: SyntaxNode,
    v: Value,
    r: Result<Option<Value>, EvalError>,
)
    requires
        prints_literal(n, v),
        read_node_rel(n, r),
    ensures
        r matches Ok(rv) && (rv matches Some(got) && crate::value::val_eq(got, v)),
{
    match v {
        Value::Nil => {
            assert(crate::value::val_eq(Value::Nil, Value::Nil));
        },
        Value::Boolean(b) => {
            reveal_strlit("nil");
            reveal_strlit("true");
            reveal_strlit("false");
            assert("nil"@.len() == 3 && "true"@.len() == 4 && "false"@.len() == 5);
            assert("nil"@ != "true"@ && "nil"@ != "false"@ && "true"@ != "false"@);
        },
        Value::Number(x) => {
            lemma_number_text_round_trip(x);
        },
        Value::String(sv) => {
            let text = node_text(n);
            assert(text =~= seq!['"'] + sv@ + seq!['"']);
            assert(text.len() == sv@.len() + 2);
            let content = text.subrange(1, text.len() - 1);
            assert(content =~= sv@);
            lemma_unescape_plain(sv@);
        },
        Value::Keyword(kv) => {
            let text = node_text(n);
            assert(text =~= seq![':'] + kv@);
            assert(text[0] == ':');
            assert(text.drop_first() =~= kv@);
        },
        _ => {
        },
    }
}



/// On nil, booleans, numbers, strings and keywords, a structurally
/// identical copy is structurally equal; so the copy the evaluator returns
/// for a self-evaluating literal is equal to the literal, closing the
/// round trip at the evaluator.
pub proof fn lemma_literal_copy_is_equal(a: Value, b: Value)
    requires
        crate::value::val_sim(a, b),
        a is Nil || a is Boolean || a is Number || a is String || a is Keyword,
    ensures
        crate::value::val_eq(a, b),
{
}

} // verus!
