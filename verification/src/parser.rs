//! The recursive-descent parser: consumes the token stream and builds the
//! lossless concrete syntax tree. It never fails: malformed input becomes
//! `Error` nodes, an unmatched closing delimiter closes the enclosing form
//! and is handed to the outer context, and the end of input closes every
//! open form with the unfinished node parented under an error frame. Every
//! token lands somewhere in the tree, so no byte of the source is dropped.

use vstd::prelude::*;

use crate::lexer::Lexer;
use crate::lexer::token_stream_wf;
use crate::syntax::SyntaxKind;
use crate::token::Token;
use crate::token::TokenKind;
use crate::tree::SyntaxElement;
use crate::tree::SyntaxNode;
use crate::tree::elem_end;
use crate::tree::elem_leaves;
use crate::tree::elem_start;
use crate::tree::elem_wf;
use crate::tree::elems_leaves;
use crate::tree::lemma_elems_leaves_push;
use crate::tree::node_leaves;
use crate::tree::node_wf;

verus! {

/// Errors a parser can diagnose. The parser itself always recovers (the
/// tree embeds `Error` nodes instead); these name the diagnoses for callers
/// that want to report them.
#[derive(Debug, Clone)]
pub enum ParserError {
    UnexpectedToken { expected: String, actual: String },
    UnexpectedEof,
    UnmatchedDelimiter(String),
}

/// Token kinds that cannot start a form: closing delimiters and the end of
/// the input. They stop the current form and are handled by the enclosing
/// context.
pub open spec fn is_stop_kind(kind: TokenKind) -> bool {
    kind == TokenKind::RightParen || kind == TokenKind::RightBracket || kind
        == TokenKind::RightBrace || kind == TokenKind::Eof
}

/// A chained token sequence: each token well formed, consecutive tokens
/// meeting exactly.
pub open spec fn tokens_chain(ts: Seq<Token>) -> bool {
    &&& forall|i: int| 0 <= i < ts.len() ==> (#[trigger] ts[i]).wf()
    &&& forall|i: int|
        0 <= i < ts.len() - 1 ==> (#[trigger] ts[i]).end as int == ts[i + 1].start as int
}

/// The children collected so far for the node under construction cover the
/// tokens `[p0, p)` exactly: their leaves are those tokens in order, they
/// are individually well formed, contiguous, and they span from the start
/// of token `p0` to the end of token `p - 1`.
pub open spec fn children_ok(cs: Seq<SyntaxElement>, ts: Seq<Token>, p0: int, p: int) -> bool {
    &&& elems_leaves(cs) == ts.subrange(p0, p)
    &&& forall|i: int| 0 <= i < cs.len() ==> elem_wf(#[trigger] cs[i])
    &&& forall|i: int| 0 <= i < cs.len() - 1 ==> elem_end(#[trigger] cs[i]) == elem_start(cs[i + 1])
    &&& (cs.len() == 0 <==> p == p0)
    &&& (cs.len() >= 1 ==> elem_start(cs[0]) == ts[p0].start as int && elem_end(cs.last())
        == ts[p - 1].end as int)
}

/// A parsed element covers the tokens `[p, q)`: its leaves are exactly those
/// tokens and it spans from the start of token `p` to the end of token
/// `q - 1`.
pub open spec fn elem_covers(e: SyntaxElement, ts: Seq<Token>, p: int, q: int) -> bool {
    &&& elem_wf(e)
    &&& elem_leaves(e) == ts.subrange(p, q)
    &&& elem_start(e) == ts[p].start as int
    &&& elem_end(e) == ts[q - 1].end as int
}

/// Appending an element that covers `[p, q)` to children covering `[p0, p)`
/// yields children covering `[p0, q)`.
#[verifier::rlimit(100)]
#[verifier::spinoff_prover]
pub proof fn lemma_children_push(
    cs: Seq<SyntaxElement>,
    ts: Seq<Token>,
    p0: int,
    p: int,
    q: int,
    e: SyntaxElement,
)
    requires
        tokens_chain(ts),
        0 <= p0 <= p < q <= ts.len(),
        children_ok(cs, ts, p0, p),
        elem_covers(e, ts, p, q),
    ensures
        children_ok(cs.push(e), ts, p0, q),
{
    lemma_elems_leaves_push(cs, e);
    assert(ts.subrange(p0, p) + ts.subrange(p, q) =~= ts.subrange(p0, q));
    let cs2 = cs.push(e);
    assert(cs2.last() == e);
    if cs.len() >= 1 {
        assert(cs2[0] == cs[0]);
        assert(elem_end(cs.last()) == ts[p - 1].end as int);
        assert(ts[p - 1].end as int == ts[p].start as int);
        assert forall|i: int| 0 <= i < cs2.len() - 1 implies elem_end(#[trigger] cs2[i])
            == elem_start(cs2[i + 1]) by {
            if i < cs.len() - 1 {
                assert(cs2[i] == cs[i]);
                assert(cs2[i + 1] == cs[i + 1]);
            } else {
                assert(cs2[i] == cs.last());
                assert(cs2[i + 1] == e);
            }
        }
    }
}

/// A single leaf token taken from position `p` of the stream covers
/// `[p, p + 1)`.
pub proof fn lemma_single_token_covers(t: Token, ts: Seq<Token>, p: int)
    requires
        tokens_chain(ts),
        0 <= p < ts.len(),
        t == ts[p],
    ensures
        elem_covers(SyntaxElement::Token(t), ts, p, p + 1),
{
    assert(elem_leaves(SyntaxElement::Token(t)) =~= ts.subrange(p, p + 1));
}

/// A node whose children cover `[p0, p)` and whose range is the span of
/// those tokens is well formed and covers `[p0, p)` itself.
pub proof fn lemma_node_covers(n: SyntaxNode, ts: Seq<Token>, p0: int, p: int)
    requires
        tokens_chain(ts),
        0 <= p0 < p <= ts.len(),
        children_ok(n.children@, ts, p0, p),
        n.start as int == ts[p0].start as int,
        n.end as int == ts[p - 1].end as int,
    ensures
        node_wf(n),
        elem_covers(SyntaxElement::Node(n), ts, p0, p),
{
    assert(elem_leaves(SyntaxElement::Node(n)) == elems_leaves(n.children@));
}

/// Wrapping a node in another single-child node of the same range keeps it
/// covering the same tokens.
pub proof fn lemma_wrap_covers(outer: SyntaxNode, inner: SyntaxNode, ts: Seq<Token>, p0: int, p: int)
    requires
        elem_covers(SyntaxElement::Node(inner), ts, p0, p),
        outer.children@ =~= seq![SyntaxElement::Node(inner)],
        outer.start == inner.start,
        outer.end == inner.end,
    ensures
        node_wf(outer),
        elem_covers(SyntaxElement::Node(outer), ts, p0, p),
{
    let cs = outer.children@;
    assert(cs[0] == SyntaxElement::Node(inner));
    assert(cs.drop_first() =~= Seq::<SyntaxElement>::empty());
    assert(elems_leaves(cs.drop_first()) =~= Seq::<Token>::empty());
    assert(elems_leaves(cs) =~= elem_leaves(SyntaxElement::Node(inner)));
}

/// Marks a token position, so that a quantifier over positions has a
/// stable handle.
pub open spec fn mark_pos(m: int) -> bool {
    true
}

/// Marks a flag, so that a quantifier over booleans has a stable handle.
pub open spec fn mark_flag(b: bool) -> bool {
    true
}

/// Marks a candidate child sequence, so that a quantifier over child
/// sequences has a stable handle.
pub open spec fn elems_seen(cs: Seq<SyntaxElement>) -> bool {
    true
}

/// A maximal run of whitespace tokens covering `[p, w)`.
pub open spec fn trivia_run(ts: Seq<Token>, p: int, w: int) -> bool {
    &&& 0 <= p <= w <= ts.len()
    &&& forall|k: int| p <= k < w ==> (#[trigger] ts[k]).kind == TokenKind::Whitespace
    &&& (w == ts.len() || ts[w].kind != TokenKind::Whitespace)
}

/// The whitespace tokens of `[p, w)` as leaf elements.
#[verifier::opaque]
pub open spec fn ws_leaves(ts: Seq<Token>, p: int, w: int) -> Seq<SyntaxElement> {
    Seq::new((w - p) as nat, |i: int| SyntaxElement::Token(ts[p + i]))
}

/// Whether an element counts as a form for map pairing: a composite node
/// that is not a comment.
pub open spec fn is_form_elem(e: SyntaxElement) -> bool {
    e matches SyntaxElement::Node(n) && n.kind != SyntaxKind::Comment
}

/// How many of the elements count as forms.
pub open spec fn count_forms(cs: Seq<SyntaxElement>) -> int
    decreases cs.len(),
{
    if cs.len() == 0 {
        0
    } else {
        count_forms(cs.drop_last()) + if is_form_elem(cs.last()) {
            1int
        } else {
            0int
        }
    }
}

/// The element is the composite node with exactly this kind, range and
/// child sequence.
pub open spec fn plain_node(e: SyntaxElement, kind: SyntaxKind, cs: Seq<SyntaxElement>) -> bool {
    &&& e matches SyntaxElement::Node(n)
    &&& n.kind == kind
    &&& n.children@ == cs
    &&& cs.len() >= 1
    &&& n.start as int == elem_start(cs[0])
    &&& n.end as int == elem_end(cs.last())
}

/// The element is such a node parented under an error frame of the same
/// range.
pub open spec fn wrapped_node(e: SyntaxElement, kind: SyntaxKind, cs: Seq<SyntaxElement>) -> bool {
    &&& e matches SyntaxElement::Node(w)
    &&& w.kind == SyntaxKind::Error
    &&& w.children@.len() == 1
    &&& plain_node(w.children@[0], kind, cs)
    &&& cs.len() >= 1
    &&& w.start as int == elem_start(cs[0])
    &&& w.end as int == elem_end(cs.last())
}

/// A literal wrapper: one node of the given kind around the single token
/// at `p`.
pub open spec fn lit_rel(ts: Seq<Token>, p: int, e: SyntaxElement, q: int, kind: SyntaxKind) -> bool {
    q == p + 1 && plain_node(e, kind, seq![SyntaxElement::Token(ts[p])])
}

/// What parsing one form at position `p` may build, covering `[p, q)`:
/// the grammar of spec forms, dispatched on the token at `p`. A closing
/// delimiter or the end of input starts no form.
#[verifier::opaque]
pub open spec fn pf_rel(ts: Seq<Token>, p: int, e: SyntaxElement, q: int) -> bool
    decreases ts.len() - p, 3int,
{
    if !(0 <= p < ts.len()) {
        false
    } else {
        let t = ts[p];
        match t.kind {
            TokenKind::LeftParen => pd_rel(ts, p, e, q, SyntaxKind::List, TokenKind::RightParen),
            TokenKind::LeftBracket => pd_rel(
                ts,
                p,
                e,
                q,
                SyntaxKind::Vector,
                TokenKind::RightBracket,
            ),
            TokenKind::LeftBrace => pd_rel(ts, p, e, q, SyntaxKind::MapLit, TokenKind::RightBrace),
            TokenKind::HashLeftBrace => pd_rel(
                ts,
                p,
                e,
                q,
                SyntaxKind::SetLit,
                TokenKind::RightBrace,
            ),
            TokenKind::Quote => pp_rel(ts, p, e, q, SyntaxKind::Quote, false),
            TokenKind::Backtick => pp_rel(ts, p, e, q, SyntaxKind::Backtick, false),
            TokenKind::Tilde => pp_rel(ts, p, e, q, SyntaxKind::Unquote, false),
            TokenKind::Comma => pp_rel(ts, p, e, q, SyntaxKind::Unquote, false),
            TokenKind::TildeAt => pp_rel(ts, p, e, q, SyntaxKind::UnquoteSplicing, false),
            TokenKind::Caret => pp_rel(ts, p, e, q, SyntaxKind::Meta, true),
            TokenKind::Hash => if t.text@ == "#_"@ {
                pp_rel(ts, p, e, q, SyntaxKind::Discard, false)
            } else {
                pp_rel(ts, p, e, q, SyntaxKind::Tag, false)
            },
            TokenKind::String => lit_rel(ts, p, e, q, SyntaxKind::StringLit),
            TokenKind::Number => lit_rel(ts, p, e, q, SyntaxKind::NumberLit),
            TokenKind::Character => lit_rel(ts, p, e, q, SyntaxKind::CharacterLit),
            TokenKind::Keyword => lit_rel(ts, p, e, q, SyntaxKind::KeywordLit),
            TokenKind::Symbol => lit_rel(ts, p, e, q, SyntaxKind::SymbolLit),
            TokenKind::Comment => lit_rel(ts, p, e, q, SyntaxKind::Comment),
            TokenKind::Error => lit_rel(ts, p, e, q, SyntaxKind::Error),
            TokenKind::Whitespace => e == SyntaxElement::Token(t) && q == p + 1,
            TokenKind::RightParen => false,
            TokenKind::RightBracket => false,
            TokenKind::RightBrace => false,
            TokenKind::Eof => false,
        }
    }
}

/// The child forms of a delimited node, parsed from `p` until the matching
/// closer, a foreign closer, or the end of input, which is left at `q`.
#[verifier::opaque]
pub open spec fn pi_rel(
    ts: Seq<Token>,
    p: int,
    cs: Seq<SyntaxElement>,
    q: int,
    close: TokenKind,
) -> bool
    decreases ts.len() - p, 4int,
{
    if !(0 <= p <= ts.len()) {
        false
    } else if p == ts.len() || ts[p].kind == close || is_stop_kind(ts[p].kind) {
        cs.len() == 0 && q == p
    } else {
        &&& cs.len() >= 1
        &&& exists|m: int|
            #![trigger mark_pos(m)]
            {
                &&& mark_pos(m)
                &&& p < m <= ts.len()
                &&& pf_rel(ts, p, cs[0], m)
                &&& if p < m {
                    pi_rel(ts, m, cs.drop_first(), q, close)
                } else {
                    false
                }
            }
    }
}

/// A delimited form: the opener, the child forms, and either the matching
/// closer or an error frame when the closer is missing; a closed map with
/// unpaired forms is also parented under an error frame.
#[verifier::opaque]
pub open spec fn pd_rel(
    ts: Seq<Token>,
    p: int,
    e: SyntaxElement,
    q: int,
    kind: SyntaxKind,
    close: TokenKind,
) -> bool
    decreases ts.len() - p, 2int,
{
    if !(0 <= p < ts.len()) {
        false
    } else {
        exists|cs: Seq<SyntaxElement>, m: int|
            #![trigger elems_seen(cs), mark_pos(m)]
            {
                &&& elems_seen(cs)
                &&& mark_pos(m)
                &&& p < p + 1 <= ts.len()
                &&& pi_rel(ts, p + 1, cs, m, close)
                &&& p + 1 <= m <= ts.len()
                &&& if m < ts.len() && ts[m].kind == close {
                    &&& q == m + 1
                    &&& if kind == SyntaxKind::MapLit && count_forms(cs) % 2 == 1 {
                        wrapped_node(
                            e,
                            kind,
                            seq![SyntaxElement::Token(ts[p])] + cs + seq![
                                SyntaxElement::Token(ts[m]),
                            ],
                        )
                    } else {
                        plain_node(
                            e,
                            kind,
                            seq![SyntaxElement::Token(ts[p])] + cs + seq![
                                SyntaxElement::Token(ts[m]),
                            ],
                        )
                    }
                } else {
                    &&& q == m
                    &&& wrapped_node(e, kind, seq![SyntaxElement::Token(ts[p])] + cs)
                }
            }
    }
}

/// One operand of a prefixed form: any leading whitespace leaves, then one
/// form if one is there.
#[verifier::opaque]
pub open spec fn operand_rel(
    ts: Seq<Token>,
    p: int,
    seg: Seq<SyntaxElement>,
    q: int,
    got: bool,
) -> bool
    decreases ts.len() - p, 5int,
{
    if !(0 <= p <= ts.len()) {
        false
    } else {
        exists|w: int|
            #![trigger mark_pos(w)]
            {
                &&& mark_pos(w)
                &&& trivia_run(ts, p, w)
                &&& if w < ts.len() && !is_stop_kind(ts[w].kind) {
                    &&& got
                    &&& seg.len() == w - p + 1
                    &&& seg.subrange(0, w - p) == ws_leaves(ts, p, w)
                    &&& (if p <= w {
                        pf_rel(ts, w, seg.last(), q)
                    } else {
                        false
                    })
                } else {
                    &&& !got
                    &&& seg == ws_leaves(ts, p, w)
                    &&& q == w
                }
            }
    }
}

/// A prefixed form: the reader-macro token, one operand (two for
/// metadata), whitespace attached as leaves; an error frame when an
/// operand is missing.
#[verifier::opaque]
pub open spec fn pp_rel(
    ts: Seq<Token>,
    p: int,
    e: SyntaxElement,
    q: int,
    kind: SyntaxKind,
    two_forms: bool,
) -> bool
    decreases ts.len() - p, 2int,
{
    if !(0 <= p < ts.len()) {
        false
    } else {
        exists|seg1: Seq<SyntaxElement>, q1: int, got1: bool|
            #![trigger elems_seen(seg1), mark_pos(q1), mark_flag(got1)]
            {
                &&& elems_seen(seg1)
                &&& mark_pos(q1)
                &&& mark_flag(got1)
                &&& operand_rel(ts, p + 1, seg1, q1, got1)
                &&& p < q1 <= ts.len()
                &&& if !got1 {
                    q == q1 && wrapped_node(e, kind, seq![SyntaxElement::Token(ts[p])] + seg1)
                } else if !two_forms {
                    q == q1 && plain_node(e, kind, seq![SyntaxElement::Token(ts[p])] + seg1)
                } else {
                    exists|seg2: Seq<SyntaxElement>, q2: int, got2: bool|
                        #![trigger elems_seen(seg2), mark_pos(q2), mark_flag(got2)]
                        {
                            &&& elems_seen(seg2)
                            &&& mark_pos(q2)
                            &&& mark_flag(got2)
                            &&& (if p < q1 <= ts.len() {
                                operand_rel(ts, q1, seg2, q2, got2)
                            } else {
                                false
                            })
                            &&& q == q2
                            &&& if got2 {
                                plain_node(
                                    e,
                                    kind,
                                    seq![SyntaxElement::Token(ts[p])] + seg1 + seg2,
                                )
                            } else {
                                wrapped_node(
                                    e,
                                    kind,
                                    seq![SyntaxElement::Token(ts[p])] + seg1 + seg2,
                                )
                            }
                        }
                }
            }
    }
}

/// The root's children, parsed from `p` to the end of the stream: forms
/// where forms start, the `Eof` token as a plain leaf, and any stray
/// closing delimiter under an error node.
#[verifier::opaque]
pub open spec fn ri_rel(ts: Seq<Token>, p: int, cs: Seq<SyntaxElement>, q: int) -> bool
    decreases ts.len() - p, 4int,
{
    if !(0 <= p <= ts.len()) {
        false
    } else if p == ts.len() {
        cs.len() == 0 && q == p
    } else if !is_stop_kind(ts[p].kind) {
        &&& cs.len() >= 1
        &&& exists|m: int|
            #![trigger mark_pos(m)]
            {
                &&& mark_pos(m)
                &&& p < m <= ts.len()
                &&& pf_rel(ts, p, cs[0], m)
                &&& if p < m {
                    ri_rel(ts, m, cs.drop_first(), q)
                } else {
                    false
                }
            }
    } else if ts[p].kind == TokenKind::Eof {
        &&& cs.len() >= 1
        &&& cs[0] == SyntaxElement::Token(ts[p])
        &&& ri_rel(ts, p + 1, cs.drop_first(), q)
    } else {
        &&& cs.len() >= 1
        &&& lit_rel(ts, p, cs[0], p + 1, SyntaxKind::Error)
        &&& ri_rel(ts, p + 1, cs.drop_first(), q)
    }
}

/// What parsing a whole stream builds: the root node whose children are
/// the root items of the entire token sequence.
#[verifier::opaque]
pub open spec fn parse_root_rel(ts: Seq<Token>, root: SyntaxNode) -> bool {
    &&& ts.len() >= 1
    &&& root.kind == SyntaxKind::Root
    &&& ri_rel(ts, 0, root.children@, ts.len() as int)
    &&& root.start == ts[0].start
    &&& root.end == ts[ts.len() - 1].end
}

/// Prepending an element that covers `[p, m)` to children covering
/// `[m, q)` yields children covering `[p, q)`.
#[verifier::rlimit(100)]
#[verifier::spinoff_prover]
pub proof fn lemma_children_cons(
    e: SyntaxElement,
    cs: Seq<SyntaxElement>,
    ts: Seq<Token>,
    p: int,
    m: int,
    q: int,
)
    requires
        tokens_chain(ts),
        0 <= p < m <= q <= ts.len(),
        elem_covers(e, ts, p, m),
        children_ok(cs, ts, m, q),
    ensures
        children_ok(seq![e] + cs, ts, p, q),
{
    let cs2 = seq![e] + cs;
    assert(cs2[0] == e);
    assert(cs2.drop_first() =~= cs);
    assert(elems_leaves(cs2) == elem_leaves(cs2[0]) + elems_leaves(cs2.drop_first()));
    assert(ts.subrange(p, m) + ts.subrange(m, q) =~= ts.subrange(p, q));
    if cs.len() >= 1 {
        assert(elem_end(e) == ts[m - 1].end as int);
        assert(ts[m - 1].end as int == ts[m].start as int);
        assert(cs2.last() == cs.last());
        assert forall|i: int| 0 <= i < cs2.len() - 1 implies elem_end(#[trigger] cs2[i])
            == elem_start(cs2[i + 1]) by {
            if i == 0 {
                assert(cs2[1] == cs[0]);
            } else {
                assert(cs2[i] == cs[i - 1]);
                assert(cs2[i + 1] == cs[i]);
            }
        }
    } else {
        assert(cs2.last() == e);
    }
}

/// A whitespace run's leaves start with their first token.
#[verifier::rlimit(100)]
#[verifier::spinoff_prover]
pub proof fn lemma_ws_unroll(ts: Seq<Token>, p: int, w: int)
    requires
        0 <= p < w <= ts.len(),
    ensures
        ws_leaves(ts, p, w) == seq![SyntaxElement::Token(ts[p])] + ws_leaves(ts, p + 1, w),
{
    reveal(ws_leaves);
    assert(ws_leaves(ts, p, w) =~= seq![SyntaxElement::Token(ts[p])] + ws_leaves(ts, p + 1, w));
}

/// An empty whitespace run has no leaves.
#[verifier::rlimit(100)]
#[verifier::spinoff_prover]
pub proof fn lemma_ws_empty(ts: Seq<Token>, p: int)
    ensures
        ws_leaves(ts, p, p) == Seq::<SyntaxElement>::empty(),
{
    reveal(ws_leaves);
    assert(ws_leaves(ts, p, p) =~= Seq::<SyntaxElement>::empty());
}

/// Appending the leaves of a whitespace run keeps the children covering
/// their tokens.
#[verifier::rlimit(100)]
#[verifier::spinoff_prover]
pub proof fn lemma_children_append_ws(
    cs: Seq<SyntaxElement>,
    ts: Seq<Token>,
    p0: int,
    p: int,
    w: int,
)
    requires
        tokens_chain(ts),
        0 <= p0 <= p <= w <= ts.len(),
        children_ok(cs, ts, p0, p),
    ensures
        children_ok(cs + ws_leaves(ts, p, w), ts, p0, w),
    decreases w - p,
{
    if w == p {
        lemma_ws_empty(ts, p);
        assert(cs + ws_leaves(ts, p, w) =~= cs);
    } else {
        lemma_single_token_covers(ts[p], ts, p);
        lemma_children_push(cs, ts, p0, p, p + 1, SyntaxElement::Token(ts[p]));
        lemma_children_append_ws(cs.push(SyntaxElement::Token(ts[p])), ts, p0, p + 1, w);
        lemma_ws_unroll(ts, p, w);
        assert(cs.push(SyntaxElement::Token(ts[p])) + ws_leaves(ts, p + 1, w) =~= cs + (seq![
            SyntaxElement::Token(ts[p]),
        ] + ws_leaves(ts, p + 1, w)));
    }
}

/// A child sequence whose tail is pointwise the tokens of `[p, w)` is the
/// base followed by those leaves.
#[verifier::rlimit(100)]
#[verifier::spinoff_prover]
pub proof fn lemma_ws_shape(
    cs: Seq<SyntaxElement>,
    base: Seq<SyntaxElement>,
    ts: Seq<Token>,
    p: int,
    w: int,
)
    requires
        0 <= p <= w <= ts.len(),
        cs.len() == base.len() + (w - p),
        forall|k: int| 0 <= k < base.len() ==> #[trigger] cs[k] == base[k],
        forall|k: int|
            base.len() <= k < cs.len() ==> #[trigger] cs[k] == SyntaxElement::Token(
                ts[p + (k - base.len())],
            ),
    ensures
        cs == base + ws_leaves(ts, p, w),
{
    reveal(ws_leaves);
    assert(cs =~= base + ws_leaves(ts, p, w));
}

/// Children covering adjacent ranges concatenate to children covering the
/// joined range.
#[verifier::rlimit(100)]
#[verifier::spinoff_prover]
pub proof fn lemma_children_concat(
    a: Seq<SyntaxElement>,
    b: Seq<SyntaxElement>,
    ts: Seq<Token>,
    p0: int,
    p: int,
    q: int,
)
    requires
        tokens_chain(ts),
        0 <= p0 <= p <= q <= ts.len(),
        children_ok(a, ts, p0, p),
        children_ok(b, ts, p, q),
    ensures
        children_ok(a + b, ts, p0, q),
    decreases b.len(),
{
    if b.len() == 0 {
        assert(a + b =~= a);
    } else {
        let e = b[0];
        let m = p + elem_leaves(e).len();
        lemma_children_head(b, ts, p, q);
        lemma_children_push(a, ts, p0, p, m, e);
        lemma_children_concat(a.push(e), b.drop_first(), ts, p0, m, q);
        assert(a.push(e) + b.drop_first() =~= a + b);
    }
}

/// The first of a covering child sequence covers its own leaves' tokens,
/// and the rest cover the remainder.
#[verifier::rlimit(100)]
#[verifier::spinoff_prover]
pub proof fn lemma_leaves_split(b: Seq<SyntaxElement>, ts: Seq<Token>, p: int, q: int)
    requires
        0 <= p <= q <= ts.len(),
        b.len() >= 1,
        elems_leaves(b) == ts.subrange(p, q),
    ensures
        p + elem_leaves(b[0]).len() <= q,
        elem_leaves(b[0]) == ts.subrange(p, p + elem_leaves(b[0]).len()),
        elems_leaves(b.drop_first()) == ts.subrange(p + elem_leaves(b[0]).len(), q),
{
    let k = elem_leaves(b[0]).len() as int;
    let m = p + k;
    assert(elems_leaves(b) == elem_leaves(b[0]) + elems_leaves(b.drop_first()));
    assert(elems_leaves(b).len() == q - p);
    assert(m <= q);
    assert forall|i: int| 0 <= i < k implies elem_leaves(b[0])[i] == ts[p + i] by {
        assert(elem_leaves(b[0])[i] == elems_leaves(b)[i]);
        assert(elems_leaves(b) == ts.subrange(p, q));
    }
    assert(elem_leaves(b[0]) =~= ts.subrange(p, m));
    assert forall|i: int| 0 <= i < elems_leaves(b.drop_first()).len() implies #[trigger]
        elems_leaves(b.drop_first())[i] == ts[m + i] by {
        assert(elems_leaves(b.drop_first())[i] == elems_leaves(b)[k + i]);
        assert(elems_leaves(b) == ts.subrange(p, q));
    }
    assert(elems_leaves(b.drop_first()) =~= ts.subrange(m, q));
}

/// The first of a covering child sequence covers its own leaves' tokens,
/// and the rest cover the remainder.
#[verifier::rlimit(100)]
#[verifier::spinoff_prover]
pub proof fn lemma_children_head(b: Seq<SyntaxElement>, ts: Seq<Token>, p: int, q: int)
    requires
        tokens_chain(ts),
        0 <= p <= q <= ts.len(),
        children_ok(b, ts, p, q),
        b.len() >= 1,
    ensures
        elem_leaves(b[0]).len() >= 1,
        p + elem_leaves(b[0]).len() <= q,
        elem_covers(b[0], ts, p, p + elem_leaves(b[0]).len()),
        children_ok(b.drop_first(), ts, p + elem_leaves(b[0]).len(), q),
    decreases 0int,
{
    let e = b[0];
    crate::tree::lemma_wf_leaves_tile(e);
    lemma_leaves_split(b, ts, p, q);
    let k = elem_leaves(e).len() as int;
    let m = p + k;
    assert(elem_start(e) == ts[p].start as int);
    assert(elem_leaves(e).last() == ts[m - 1]);
    assert(elem_end(e) == ts[m - 1].end as int);
    let rest = b.drop_first();
    assert forall|i: int| 0 <= i < rest.len() implies elem_wf(#[trigger] rest[i]) by {
        assert(rest[i] == b[i + 1]);
    }
    assert forall|i: int| 0 <= i < rest.len() - 1 implies elem_end(#[trigger] rest[i])
        == elem_start(rest[i + 1]) by {
        assert(rest[i] == b[i + 1]);
        assert(rest[i + 1] == b[i + 2]);
    }
    if rest.len() >= 1 {
        assert(rest[0] == b[1]);
        crate::tree::lemma_wf_leaves_tile(rest[0]);
        assert(elems_leaves(rest) == elem_leaves(rest[0]) + elems_leaves(rest.drop_first()));
        assert(elems_leaves(rest).len() >= 1);
        assert(m < q);
        assert(elem_start(b[1]) == elem_end(b[0]));
        assert(ts[m - 1].end as int == ts[m].start as int);
        assert(rest.last() == b.last());
    } else {
        assert(elems_leaves(rest) =~= Seq::<Token>::empty());
        assert(q == m);
    }
}

/// No form starts here, so the item run is empty.
pub proof fn lemma_pi_nil(ts: Seq<Token>, p: int, close: TokenKind)
    requires
        0 <= p <= ts.len(),
        p == ts.len() || ts[p].kind == close || is_stop_kind(ts[p].kind),
    ensures
        pi_rel(ts, p, Seq::empty(), p, close),
{
    reveal(pi_rel);
}

/// A parsed form extends the item run.
pub proof fn lemma_pi_cons(
    ts: Seq<Token>,
    p: int,
    e: SyntaxElement,
    m: int,
    rest: Seq<SyntaxElement>,
    q: int,
    close: TokenKind,
)
    requires
        0 <= p < ts.len(),
        ts[p].kind != close,
        !is_stop_kind(ts[p].kind),
        p < m <= ts.len(),
        pf_rel(ts, p, e, m),
        pi_rel(ts, m, rest, q, close),
    ensures
        pi_rel(ts, p, seq![e] + rest, q, close),
{
    reveal(pi_rel);
    reveal(pf_rel);
    assert(mark_pos(m));
    assert((seq![e] + rest)[0] == e);
    assert((seq![e] + rest).drop_first() =~= rest);
}

/// At the end of the stream the root has no more items.
pub proof fn lemma_ri_nil(ts: Seq<Token>, p: int)
    requires
        0 <= p,
        p == ts.len(),
    ensures
        ri_rel(ts, p, Seq::empty(), p),
{
    reveal(ri_rel);
}

/// A parsed form extends the root items.
pub proof fn lemma_ri_cons_form(
    ts: Seq<Token>,
    p: int,
    e: SyntaxElement,
    m: int,
    rest: Seq<SyntaxElement>,
    q: int,
)
    requires
        0 <= p < ts.len(),
        !is_stop_kind(ts[p].kind),
        p < m <= ts.len(),
        pf_rel(ts, p, e, m),
        ri_rel(ts, m, rest, q),
    ensures
        ri_rel(ts, p, seq![e] + rest, q),
{
    reveal(ri_rel);
    reveal(pf_rel);
    assert(mark_pos(m));
    assert((seq![e] + rest)[0] == e);
    assert((seq![e] + rest).drop_first() =~= rest);
}

/// The `Eof` token joins the root as a plain leaf.
pub proof fn lemma_ri_cons_eof(ts: Seq<Token>, p: int, rest: Seq<SyntaxElement>, q: int)
    requires
        0 <= p < ts.len(),
        ts[p].kind == TokenKind::Eof,
        ri_rel(ts, p + 1, rest, q),
    ensures
        ri_rel(ts, p, seq![SyntaxElement::Token(ts[p])] + rest, q),
{
    reveal(ri_rel);
    let cs = seq![SyntaxElement::Token(ts[p])] + rest;
    assert(cs[0] == SyntaxElement::Token(ts[p]));
    assert(cs.drop_first() =~= rest);
}

/// A stray closing delimiter joins the root under an error node.
pub proof fn lemma_ri_cons_err(
    ts: Seq<Token>,
    p: int,
    e: SyntaxElement,
    rest: Seq<SyntaxElement>,
    q: int,
)
    requires
        0 <= p < ts.len(),
        is_stop_kind(ts[p].kind),
        ts[p].kind != TokenKind::Eof,
        lit_rel(ts, p, e, p + 1, SyntaxKind::Error),
        ri_rel(ts, p + 1, rest, q),
    ensures
        ri_rel(ts, p, seq![e] + rest, q),
{
    reveal(ri_rel);
    let cs = seq![e] + rest;
    assert(cs[0] == e);
    assert(cs.drop_first() =~= rest);
}

/// The dispatch of form parsing: each token kind that starts a form builds
/// the node of its own grammar production.
pub proof fn lemma_pf_from(ts: Seq<Token>, p: int, e: SyntaxElement, q: int)
    requires
        0 <= p < ts.len(),
        match ts[p].kind {
            TokenKind::LeftParen => pd_rel(ts, p, e, q, SyntaxKind::List, TokenKind::RightParen),
            TokenKind::LeftBracket => pd_rel(
                ts,
                p,
                e,
                q,
                SyntaxKind::Vector,
                TokenKind::RightBracket,
            ),
            TokenKind::LeftBrace => pd_rel(ts, p, e, q, SyntaxKind::MapLit, TokenKind::RightBrace),
            TokenKind::HashLeftBrace => pd_rel(
                ts,
                p,
                e,
                q,
                SyntaxKind::SetLit,
                TokenKind::RightBrace,
            ),
            TokenKind::Quote => pp_rel(ts, p, e, q, SyntaxKind::Quote, false),
            TokenKind::Backtick => pp_rel(ts, p, e, q, SyntaxKind::Backtick, false),
            TokenKind::Tilde => pp_rel(ts, p, e, q, SyntaxKind::Unquote, false),
            TokenKind::Comma => pp_rel(ts, p, e, q, SyntaxKind::Unquote, false),
            TokenKind::TildeAt => pp_rel(ts, p, e, q, SyntaxKind::UnquoteSplicing, false),
            TokenKind::Caret => pp_rel(ts, p, e, q, SyntaxKind::Meta, true),
            TokenKind::Hash => if ts[p].text@ == "#_"@ {
                pp_rel(ts, p, e, q, SyntaxKind::Discard, false)
            } else {
                pp_rel(ts, p, e, q, SyntaxKind::Tag, false)
            },
            TokenKind::String => lit_rel(ts, p, e, q, SyntaxKind::StringLit),
            TokenKind::Number => lit_rel(ts, p, e, q, SyntaxKind::NumberLit),
            TokenKind::Character => lit_rel(ts, p, e, q, SyntaxKind::CharacterLit),
            TokenKind::Keyword => lit_rel(ts, p, e, q, SyntaxKind::KeywordLit),
            TokenKind::Symbol => lit_rel(ts, p, e, q, SyntaxKind::SymbolLit),
            TokenKind::Comment => lit_rel(ts, p, e, q, SyntaxKind::Comment),
            TokenKind::Error => lit_rel(ts, p, e, q, SyntaxKind::Error),
            TokenKind::Whitespace => e == SyntaxElement::Token(ts[p]) && q == p + 1,
            _ => false,
        },
    ensures
        pf_rel(ts, p, e, q),
{
    reveal(pf_rel);
    reveal(pd_rel);
    reveal(pp_rel);
}

/// A delimited form whose closer was found.
pub proof fn lemma_pd_closed(
    ts: Seq<Token>,
    p: int,
    cs: Seq<SyntaxElement>,
    m: int,
    e: SyntaxElement,
    kind: SyntaxKind,
    close: TokenKind,
)
    requires
        0 <= p < ts.len(),
        p + 1 <= m < ts.len(),
        ts[m].kind == close,
        pi_rel(ts, p + 1, cs, m, close),
        if kind == SyntaxKind::MapLit && count_forms(cs) % 2 == 1 {
            wrapped_node(
                e,
                kind,
                seq![SyntaxElement::Token(ts[p])] + cs + seq![SyntaxElement::Token(ts[m])],
            )
        } else {
            plain_node(
                e,
                kind,
                seq![SyntaxElement::Token(ts[p])] + cs + seq![SyntaxElement::Token(ts[m])],
            )
        },
    ensures
        pd_rel(ts, p, e, m + 1, kind, close),
{
    reveal(pd_rel);
    reveal(pi_rel);
    assert(elems_seen(cs));
    assert(mark_pos(m));
}

/// A delimited form stopped without its closer.
pub proof fn lemma_pd_unclosed(
    ts: Seq<Token>,
    p: int,
    cs: Seq<SyntaxElement>,
    m: int,
    e: SyntaxElement,
    kind: SyntaxKind,
    close: TokenKind,
)
    requires
        0 <= p < ts.len(),
        p + 1 <= m <= ts.len(),
        !(m < ts.len() && ts[m].kind == close),
        pi_rel(ts, p + 1, cs, m, close),
        wrapped_node(e, kind, seq![SyntaxElement::Token(ts[p])] + cs),
    ensures
        pd_rel(ts, p, e, m, kind, close),
{
    reveal(pd_rel);
    reveal(pi_rel);
    assert(elems_seen(cs));
    assert(mark_pos(m));
}

/// An operand position holding no form: only its whitespace leaves.
pub proof fn lemma_operand_none(ts: Seq<Token>, p: int, w: int, seg: Seq<SyntaxElement>)
    requires
        trivia_run(ts, p, w),
        w == ts.len() || is_stop_kind(ts[w].kind),
        seg == ws_leaves(ts, p, w),
    ensures
        operand_rel(ts, p, seg, w, false),
{
    reveal(operand_rel);
    reveal(ws_leaves);
    assert(mark_pos(w));
}

/// An operand position holding a form: its whitespace leaves and the form.
pub proof fn lemma_operand_some(
    ts: Seq<Token>,
    p: int,
    w: int,
    e: SyntaxElement,
    q: int,
    seg: Seq<SyntaxElement>,
)
    requires
        trivia_run(ts, p, w),
        w < ts.len(),
        !is_stop_kind(ts[w].kind),
        pf_rel(ts, w, e, q),
        seg == ws_leaves(ts, p, w).push(e),
    ensures
        operand_rel(ts, p, seg, q, true),
{
    reveal(operand_rel);
    reveal(pf_rel);
    reveal(ws_leaves);
    assert(mark_pos(w));
    assert(seg.subrange(0, w - p) =~= ws_leaves(ts, p, w));
    assert(seg.last() == e);
}

/// A prefixed form whose single operand run decided it.
pub proof fn lemma_pp_one(
    ts: Seq<Token>,
    p: int,
    e: SyntaxElement,
    seg1: Seq<SyntaxElement>,
    q1: int,
    got1: bool,
    kind: SyntaxKind,
    two_forms: bool,
)
    requires
        0 <= p < ts.len(),
        operand_rel(ts, p + 1, seg1, q1, got1),
        p < q1 <= ts.len(),
        !got1 || !two_forms,
        if got1 {
            plain_node(e, kind, seq![SyntaxElement::Token(ts[p])] + seg1)
        } else {
            wrapped_node(e, kind, seq![SyntaxElement::Token(ts[p])] + seg1)
        },
    ensures
        pp_rel(ts, p, e, q1, kind, two_forms),
{
    reveal(pp_rel);
    reveal(operand_rel);
    assert(elems_seen(seg1));
    assert(mark_pos(q1));
    assert(mark_flag(got1));
}

/// A metadata form whose first operand was found and second decided it.
pub proof fn lemma_pp_two(
    ts: Seq<Token>,
    p: int,
    e: SyntaxElement,
    seg1: Seq<SyntaxElement>,
    q1: int,
    seg2: Seq<SyntaxElement>,
    q2: int,
    got2: bool,
    kind: SyntaxKind,
)
    requires
        0 <= p < ts.len(),
        operand_rel(ts, p + 1, seg1, q1, true),
        p < q1 <= ts.len(),
        operand_rel(ts, q1, seg2, q2, got2),
        if got2 {
            plain_node(e, kind, seq![SyntaxElement::Token(ts[p])] + seg1 + seg2)
        } else {
            wrapped_node(e, kind, seq![SyntaxElement::Token(ts[p])] + seg1 + seg2)
        },
    ensures
        pp_rel(ts, p, e, q2, kind, true),
{
    reveal(pp_rel);
    reveal(operand_rel);
    assert(elems_seen(seg1));
    assert(mark_pos(q1));
    assert(mark_flag(true));
    assert(elems_seen(seg2));
    assert(mark_pos(q2));
    assert(mark_flag(got2));
}

/// The end position of an element, as a machine integer.
fn elem_end_exec(e: &SyntaxElement) -> (r: usize)
    ensures
        r as int == elem_end(*e),
{
    match e {
        SyntaxElement::Node(n) => n.end,
        SyntaxElement::Token(t) => t.end,
    }
}

/// Whether an element is a form for the purposes of map pairing.
fn elem_is_form(e: &SyntaxElement) -> (b: bool)
    ensures
        b == is_form_elem(*e),
{
    match e {
        SyntaxElement::Node(n) => n.kind != SyntaxKind::Comment,
        SyntaxElement::Token(_) => false,
    }
}

/// Counts the elements that are forms for map pairing.
fn count_form_elems(cs: &Vec<SyntaxElement>) -> (n: usize)
    ensures
        n as int == count_forms(cs@),
{
    let total = cs.len();
    let mut n: usize = 0;
    let mut i: usize = 0;
    proof {
        assert(count_forms(cs@.subrange(0, 0)) == 0);
    }
    while i < total
        invariant
            0 <= i <= total,
            total == cs@.len(),
            n <= i,
            n as int == count_forms(cs@.subrange(0, i as int)),
        decreases total - i,
    {
        let is_form = elem_is_form(&cs[i]);
        if is_form {
            n = n + 1;
        }
        proof {
            assert(cs@.subrange(0, i + 1).drop_last() =~= cs@.subrange(0, i as int));
            assert(cs@.subrange(0, i + 1).last() == cs@[i as int]);
        }
        i = i + 1;
    }
    proof {
        assert(cs@.subrange(0, total as int) =~= cs@);
    }
    n
}

/// A parser for the language: the token stream and the position of the next
/// token to consume.
pub struct Parser {
    /// The tokens to parse.
    tokens: Vec<Token>,
    /// The position of the next token.
    pos: usize,
}

impl Parser {
    /// The token stream under parse.
    pub closed spec fn toks(self) -> Seq<Token> {
        self.tokens@
    }

    /// The current position in the token stream.
    pub closed spec fn at(self) -> int {
        self.pos as int
    }

    /// The parser stays within a chained token stream.
    pub closed spec fn wf(self) -> bool {
        &&& self.pos <= self.tokens@.len()
        &&& tokens_chain(self.tokens@)
    }

    /// Creates a new parser for the given input, running the lexer over it.
    #[verifier::rlimit(100)]
    #[verifier::spinoff_prover]
    pub fn new(input: &str) -> (p: Parser)
        ensures
            p.wf(),
            p.at() == 0,
            token_stream_wf(p.toks(), input@),
    {
        let mut lexer = Lexer::new(input);
        let tokens = lexer.tokenize();
        Parser { tokens, pos: 0 }
    }

    /// The kind of the next token.
    fn peek_kind(&self) -> (k: TokenKind)
        requires
            self.wf(),
            self.at() < self.toks().len(),
        ensures
            k == self.toks()[self.at()].kind,
    {
        self.tokens[self.pos].kind
    }

    /// Consumes the next token and returns it.
    fn consume_token(&mut self) -> (t: Token)
        requires
            old(self).wf(),
            old(self).at() < old(self).toks().len(),
        ensures
            final(self).wf(),
            final(self).toks() == old(self).toks(),
            final(self).at() == old(self).at() + 1,
            t == old(self).toks()[old(self).at()],
    {
        let n = self.tokens.len();
        let tok = &self.tokens[self.pos];
        let t = Token { kind: tok.kind, text: tok.text.clone(), start: tok.start, end: tok.end };
        self.pos = self.pos + 1;
        t
    }

    /// Parses a single form, or returns `None` when the next token cannot
    /// start one (a closing delimiter, the `Eof` token, or an exhausted
    /// stream); the caller then decides how to recover.
    #[verifier::rlimit(100)]
    pub fn parse_form(&mut self) -> (r: Option<SyntaxElement>)
        requires
            old(self).wf(),
        ensures
            final(self).wf(),
            final(self).toks() == old(self).toks(),
            r is None ==> final(self).at() == old(self).at() && (old(self).at() == old(
                self,
            ).toks().len() || is_stop_kind(old(self).toks()[old(self).at()].kind)),
            r is Some ==> old(self).at() < final(self).at() <= old(self).toks().len()
                && elem_covers(r->0, old(self).toks(), old(self).at(), final(self).at())
                && pf_rel(old(self).toks(), old(self).at(), r->0, final(self).at())
                && old(self).at() < old(self).toks().len() && !is_stop_kind(
                old(self).toks()[old(self).at()].kind,
            ),
        decreases self.toks().len() - self.at(), 3int,
    {
        if self.pos >= self.tokens.len() {
            return None;
        }
        let ghost ts = self.toks();
        let ghost p = self.at();
        let kind = self.peek_kind();
        let r: Option<SyntaxElement> = match kind {
            TokenKind::LeftParen => Some(self.parse_list()),
            TokenKind::LeftBracket => Some(self.parse_vector()),
            TokenKind::LeftBrace => Some(self.parse_map()),
            TokenKind::HashLeftBrace => Some(self.parse_set()),
            TokenKind::Quote => Some(self.parse_quote()),
            TokenKind::Backtick => Some(self.parse_backtick()),
            TokenKind::Tilde => Some(self.parse_unquote()),
            TokenKind::Comma => Some(self.parse_unquote()),
            TokenKind::TildeAt => Some(self.parse_unquote_splicing()),
            TokenKind::Caret => Some(self.parse_meta()),
            TokenKind::Hash => {
                let discard_mark = String::from_str("#_");
                if self.tokens[self.pos].text == discard_mark {
                    Some(self.parse_discard())
                } else {
                    Some(self.parse_tag())
                }
            },
            TokenKind::String => Some(self.parse_string()),
            TokenKind::Number => Some(self.parse_number()),
            TokenKind::Character => Some(self.parse_character()),
            TokenKind::Keyword => Some(self.parse_keyword()),
            TokenKind::Symbol => Some(self.parse_symbol()),
            TokenKind::Comment => Some(self.parse_literal(SyntaxKind::Comment)),
            TokenKind::Error => Some(self.parse_literal(SyntaxKind::Error)),
            TokenKind::Whitespace => {
                let t = self.consume_token();
                proof {
                    lemma_single_token_covers(t, ts, p);
                }
                Some(SyntaxElement::Token(t))
            },
            TokenKind::RightParen => None,
            TokenKind::RightBracket => None,
            TokenKind::RightBrace => None,
            TokenKind::Eof => None,
        };
        proof {
            reveal_strlit("#_");
            if r is Some {
                lemma_pf_from(ts, p, r->0, self.at());
            }
        }
        r
    }

    /// Parses a list.
    fn parse_list(&mut self) -> (r: SyntaxElement)
        requires
            old(self).wf(),
            old(self).at() < old(self).toks().len(),
        ensures
            final(self).wf(),
            final(self).toks() == old(self).toks(),
            old(self).at() < final(self).at() <= old(self).toks().len(),
            elem_covers(r, old(self).toks(), old(self).at(), final(self).at()),
            pd_rel(old(self).toks(), old(self).at(), r, final(self).at(), SyntaxKind::List, TokenKind::RightParen),
        decreases self.toks().len() - self.at(), 2int,
    {
        self.parse_delimited(SyntaxKind::List, TokenKind::RightParen)
    }

    /// Parses a vector.
    fn parse_vector(&mut self) -> (r: SyntaxElement)
        requires
            old(self).wf(),
            old(self).at() < old(self).toks().len(),
        ensures
            final(self).wf(),
            final(self).toks() == old(self).toks(),
            old(self).at() < final(self).at() <= old(self).toks().len(),
            elem_covers(r, old(self).toks(), old(self).at(), final(self).at()),
            pd_rel(old(self).toks(), old(self).at(), r, final(self).at(), SyntaxKind::Vector, TokenKind::RightBracket),
        decreases self.toks().len() - self.at(), 2int,
    {
        self.parse_delimited(SyntaxKind::Vector, TokenKind::RightBracket)
    }

    /// Parses a map. A map that closes with an odd number of child forms is
    /// parented under an error frame, and the reader later rejects it.
    fn parse_map(&mut self) -> (r: SyntaxElement)
        requires
            old(self).wf(),
            old(self).at() < old(self).toks().len(),
        ensures
            final(self).wf(),
            final(self).toks() == old(self).toks(),
            old(self).at() < final(self).at() <= old(self).toks().len(),
            elem_covers(r, old(self).toks(), old(self).at(), final(self).at()),
            pd_rel(old(self).toks(), old(self).at(), r, final(self).at(), SyntaxKind::MapLit, TokenKind::RightBrace),
        decreases self.toks().len() - self.at(), 2int,
    {
        self.parse_delimited(SyntaxKind::MapLit, TokenKind::RightBrace)
    }

    /// Parses a set.
    fn parse_set(&mut self) -> (r: SyntaxElement)
        requires
            old(self).wf(),
            old(self).at() < old(self).toks().len(),
        ensures
            final(self).wf(),
            final(self).toks() == old(self).toks(),
            old(self).at() < final(self).at() <= old(self).toks().len(),
            elem_covers(r, old(self).toks(), old(self).at(), final(self).at()),
            pd_rel(old(self).toks(), old(self).at(), r, final(self).at(), SyntaxKind::SetLit, TokenKind::RightBrace),
        decreases self.toks().len() - self.at(), 2int,
    {
        self.parse_delimited(SyntaxKind::SetLit, TokenKind::RightBrace)
    }

    /// Parses a delimited form: the opening token, the child forms, and the
    /// matching closing token. A form stopped by a non-matching closing
    /// delimiter or by the end of input closes without its closing token and
    /// is parented under an error frame; so is a map whose child forms do
    /// not pair up.
    #[verifier::rlimit(100)]
    #[verifier::spinoff_prover]
    fn parse_delimited(&mut self, kind: SyntaxKind, close: TokenKind) -> (r: SyntaxElement)
        requires
            old(self).wf(),
            old(self).at() < old(self).toks().len(),
        ensures
            final(self).wf(),
            final(self).toks() == old(self).toks(),
            old(self).at() < final(self).at() <= old(self).toks().len(),
            elem_covers(r, old(self).toks(), old(self).at(), final(self).at()),
            pd_rel(old(self).toks(), old(self).at(), r, final(self).at(), kind, close),
        decreases self.toks().len() - self.at(), 1int,
    {
        let ghost ts = self.toks();
        let ghost p0 = self.at();
        let open_tok = self.consume_token();
        let items = self.parse_items(close);
        proof {
            lemma_single_token_covers(open_tok, ts, p0);
        }
        let closed = self.pos < self.tokens.len() && self.peek_kind() == close;
        if closed {
            self.finish_closed(kind, close, open_tok, items, Ghost(ts), Ghost(p0))
        } else {
            self.finish_unclosed(kind, close, open_tok, items, Ghost(ts), Ghost(p0))
        }
    }

    /// Builds a delimited node whose closer is at the current position.
    #[verifier::rlimit(100)]
    #[verifier::spinoff_prover]
    fn finish_closed(
        &mut self,
        kind: SyntaxKind,
        close: TokenKind,
        open_tok: Token,
        items: Vec<SyntaxElement>,
        ts: Ghost<Seq<Token>>,
        p0: Ghost<int>,
    ) -> (r: SyntaxElement)
        requires
            old(self).wf(),
            old(self).toks() == ts@,
            0 <= p0@ < old(self).at() <= ts@.len(),
            open_tok == ts@[p0@],
            elem_covers(SyntaxElement::Token(open_tok), ts@, p0@, p0@ + 1),
            children_ok(items@, ts@, p0@ + 1, old(self).at()),
            pi_rel(ts@, p0@ + 1, items@, old(self).at(), close),
            old(self).at() < ts@.len(),
            ts@[old(self).at()].kind == close,
        ensures
            final(self).wf(),
            final(self).toks() == ts@,
            final(self).at() == old(self).at() + 1,
            elem_covers(r, ts@, p0@, final(self).at()),
            pd_rel(ts@, p0@, r, final(self).at(), kind, close),
    {
        let ghost m = self.at();
        let ghost itemsg = items@;
        let n_forms = count_form_elems(&items);
        let start: usize = open_tok.start;
        let close_tok = self.consume_token();
        let end: usize = close_tok.end;
        let mut children = items;
        children.insert(0, SyntaxElement::Token(open_tok));
        proof {
            lemma_children_cons(SyntaxElement::Token(open_tok), itemsg, ts@, p0@, p0@ + 1, m);
            assert(children@ =~= seq![SyntaxElement::Token(open_tok)] + itemsg);
            lemma_single_token_covers(close_tok, ts@, m);
            lemma_children_push(children@, ts@, p0@, m, m + 1, SyntaxElement::Token(close_tok));
        }
        children.push(SyntaxElement::Token(close_tok));
        proof {
            assert(children@ =~= (seq![SyntaxElement::Token(open_tok)] + itemsg) + seq![
                SyntaxElement::Token(close_tok),
            ]);
        }
        let node = SyntaxNode { kind, start, end, children };
        proof {
            lemma_node_covers(node, ts@, p0@, self.at());
        }
        let odd_map = kind == SyntaxKind::MapLit && n_forms % 2 == 1;
        let out = if odd_map {
            self.wrap_error_node(node, Ghost(ts@), Ghost(p0@))
        } else {
            SyntaxElement::Node(node)
        };
        proof {
            lemma_pd_closed(ts@, p0@, itemsg, m, out, kind, close);
        }
        out
    }

    /// Closes a form whose closer is missing, parenting it under an error
    /// frame.
    #[verifier::rlimit(100)]
    #[verifier::spinoff_prover]
    fn finish_unclosed(
        &self,
        kind: SyntaxKind,
        close: TokenKind,
        open_tok: Token,
        items: Vec<SyntaxElement>,
        ts: Ghost<Seq<Token>>,
        p0: Ghost<int>,
    ) -> (r: SyntaxElement)
        requires
            self.wf(),
            self.toks() == ts@,
            0 <= p0@ < self.at() <= ts@.len(),
            open_tok == ts@[p0@],
            elem_covers(SyntaxElement::Token(open_tok), ts@, p0@, p0@ + 1),
            children_ok(items@, ts@, p0@ + 1, self.at()),
            pi_rel(ts@, p0@ + 1, items@, self.at(), close),
            !(self.at() < ts@.len() && ts@[self.at()].kind == close),
        ensures
            elem_covers(r, ts@, p0@, self.at()),
            pd_rel(ts@, p0@, r, self.at(), kind, close),
    {
        let ghost m = self.at();
        let ghost itemsg = items@;
        let start: usize = open_tok.start;
        let mut children = items;
        children.insert(0, SyntaxElement::Token(open_tok));
        proof {
            lemma_children_cons(SyntaxElement::Token(open_tok), itemsg, ts@, p0@, p0@ + 1, m);
            assert(children@ =~= seq![SyntaxElement::Token(open_tok)] + itemsg);
        }
        let end: usize = elem_end_exec(&children[children.len() - 1]);
        let node = SyntaxNode { kind, start, end, children };
        proof {
            lemma_node_covers(node, ts@, p0@, self.at());
        }
        let out = self.wrap_error_node(node, Ghost(ts@), Ghost(p0@));
        proof {
            lemma_pd_unclosed(ts@, p0@, itemsg, m, out, kind, close);
        }
        out
    }

    /// Parses the child forms of a delimited node until the matching
    /// closer, a foreign closer, or the end of the input.
    #[verifier::rlimit(100)]
    #[verifier::spinoff_prover]
    fn parse_items(&mut self, close: TokenKind) -> (r: Vec<SyntaxElement>)
        requires
            old(self).wf(),
        ensures
            final(self).wf(),
            final(self).toks() == old(self).toks(),
            old(self).at() <= final(self).at() <= old(self).toks().len(),
            children_ok(r@, old(self).toks(), old(self).at(), final(self).at()),
            pi_rel(old(self).toks(), old(self).at(), r@, final(self).at(), close),
        decreases self.toks().len() - self.at(), 4int,
    {
        let ghost ts = self.toks();
        let ghost p = self.at();
        if self.pos >= self.tokens.len() {
            let r: Vec<SyntaxElement> = Vec::new();
            proof {
                assert(elems_leaves(r@) =~= ts.subrange(p, p));
                lemma_pi_nil(ts, p, close);
            }
            return r;
        }
        let k = self.peek_kind();
        if k == close || k == TokenKind::RightParen || k == TokenKind::RightBracket || k
            == TokenKind::RightBrace || k == TokenKind::Eof {
            let r: Vec<SyntaxElement> = Vec::new();
            proof {
                assert(elems_leaves(r@) =~= ts.subrange(p, p));
                lemma_pi_nil(ts, p, close);
            }
            return r;
        }
        match self.parse_form() {
            Some(e) => {
                let ghost eg = e;
                let ghost m = self.at();
                let rest = self.parse_items(close);
                let ghost restg = rest@;
                let mut r = rest;
                r.insert(0, e);
                proof {
                    assert(r@ =~= seq![eg] + restg);
                    lemma_children_cons(eg, restg, ts, p, m, self.at());
                    lemma_pi_cons(ts, p, eg, m, restg, self.at(), close);
                }
                r
            },
            None => {
                proof {
                    assert(false);
                }
                Vec::new()
            },
        }
    }

    /// Parents a finished but erroneous node under an error frame of the
    /// same range.
    fn wrap_error_node(&self, inner: SyntaxNode, ts: Ghost<Seq<Token>>, p0: Ghost<int>) -> (r:
        SyntaxElement)
        requires
            elem_covers(SyntaxElement::Node(inner), ts@, p0@, self.at()),
            self.wf(),
        ensures
            elem_covers(r, ts@, p0@, self.at()),
            r matches SyntaxElement::Node(w) && w.kind == SyntaxKind::Error && w.children@
                == seq![SyntaxElement::Node(inner)] && w.start == inner.start && w.end
                == inner.end,
    {
        let start: usize = inner.start;
        let end: usize = inner.end;
        let ghost inner_snap = inner;
        let mut children: Vec<SyntaxElement> = Vec::new();
        children.push(SyntaxElement::Node(inner));
        let outer = SyntaxNode { kind: SyntaxKind::Error, start, end, children };
        proof {
            lemma_wrap_covers(outer, inner_snap, ts@, p0@, self.at());
        }
        SyntaxElement::Node(outer)
    }

    /// Advances over a maximal run of whitespace tokens.
    #[verifier::rlimit(100)]
    #[verifier::spinoff_prover]
    fn scan_ws(&mut self) -> (w: usize)
        requires
            old(self).wf(),
        ensures
            final(self).wf(),
            final(self).toks() == old(self).toks(),
            old(self).at() <= final(self).at() <= old(self).toks().len(),
            w as int == final(self).at(),
            trivia_run(old(self).toks(), old(self).at(), final(self).at()),
        decreases self.toks().len() - self.at(), 0int,
    {
        loop
            invariant
                self.wf(),
                self.toks() == old(self).toks(),
                old(self).at() <= self.at() <= self.toks().len(),
                forall|k: int|
                    old(self).at() <= k < self.at() ==> (#[trigger] self.toks()[k]).kind
                        == TokenKind::Whitespace,
            ensures
                self.at() == self.toks().len() || self.toks()[self.at()].kind
                    != TokenKind::Whitespace,
            decreases self.toks().len() - self.at(),
        {
            if self.pos >= self.tokens.len() {
                break ;
            }
            if self.peek_kind() != TokenKind::Whitespace {
                break ;
            }
            self.pos = self.pos + 1;
        }
        self.pos
    }

    /// Appends the tokens of `[p, w)` as leaf elements.
    #[verifier::rlimit(100)]
    #[verifier::spinoff_prover]
    fn copy_ws(&self, children: &mut Vec<SyntaxElement>, p: usize, w: usize)
        requires
            self.wf(),
            p <= w <= self.toks().len(),
        ensures
            final(children)@.len() == old(children)@.len() + (w - p),
            forall|k: int|
                0 <= k < old(children)@.len() ==> #[trigger] final(children)@[k]
                    == old(children)@[k],
            forall|k: int|
                old(children)@.len() <= k < final(children)@.len()
                    ==> #[trigger] final(children)@[k] == SyntaxElement::Token(
                    self.toks()[p + (k - old(children)@.len())],
                ),
    {
        let ghost base = children@;
        let mut i = p;
        while i < w
            invariant
                self.wf(),
                p <= i <= w <= self.toks().len(),
                children@.len() == base.len() + (i - p),
                forall|k: int| 0 <= k < base.len() ==> #[trigger] children@[k] == base[k],
                forall|k: int|
                    base.len() <= k < children@.len() ==> #[trigger] children@[k]
                        == SyntaxElement::Token(self.toks()[p + (k - base.len())]),
            decreases w - i,
        {
            let t = self.token_at(i);
            children.push(SyntaxElement::Token(t));
            i = i + 1;
        }
    }

    /// A copy of the token at the given position.
    fn token_at(&self, i: usize) -> (t: Token)
        requires
            self.wf(),
            i < self.toks().len(),
        ensures
            t == self.toks()[i as int],
    {
        let tok = &self.tokens[i];
        Token { kind: tok.kind, text: tok.text.clone(), start: tok.start, end: tok.end }
    }

    /// Collects one operand of a prefixed form: any leading whitespace as
    /// leaves, then one form if one starts here.
    #[verifier::rlimit(100)]
    #[verifier::spinoff_prover]
    fn operand(&mut self) -> (r: (Vec<SyntaxElement>, bool))
        requires
            old(self).wf(),
        ensures
            final(self).wf(),
            final(self).toks() == old(self).toks(),
            old(self).at() <= final(self).at() <= old(self).toks().len(),
            children_ok(r.0@, old(self).toks(), old(self).at(), final(self).at()),
            operand_rel(old(self).toks(), old(self).at(), r.0@, final(self).at(), r.1),
        decreases self.toks().len() - self.at(), 5int,
    {
        let ghost ts = self.toks();
        let ghost p_start = self.at();
        let mut seg = self.ws_segment();
        let ghost w = self.at();
        match self.parse_form() {
            Some(e) => {
                let ghost q = self.at();
                proof {
                    lemma_children_push(seg@, ts, p_start, w, q, e);
                    lemma_operand_some(ts, p_start, w, e, q, seg@.push(e));
                }
                seg.push(e);
                (seg, true)
            },
            None => {
                proof {
                    lemma_operand_none(ts, p_start, w, seg@);
                }
                (seg, false)
            },
        }
    }

    /// Collects a maximal run of whitespace tokens as leaf elements.
    #[verifier::rlimit(100)]
    #[verifier::spinoff_prover]
    fn ws_segment(&mut self) -> (seg: Vec<SyntaxElement>)
        requires
            old(self).wf(),
        ensures
            final(self).wf(),
            final(self).toks() == old(self).toks(),
            old(self).at() <= final(self).at() <= old(self).toks().len(),
            trivia_run(old(self).toks(), old(self).at(), final(self).at()),
            seg@ == ws_leaves(old(self).toks(), old(self).at(), final(self).at()),
            children_ok(seg@, old(self).toks(), old(self).at(), final(self).at()),
        decreases self.toks().len() - self.at(), 0int,
    {
        let ghost ts = self.toks();
        let p_exec = self.pos;
        let w = self.scan_ws();
        let mut seg: Vec<SyntaxElement> = Vec::new();
        self.copy_ws(&mut seg, p_exec, w);
        proof {
            lemma_ws_shape(seg@, Seq::empty(), ts, p_exec as int, w as int);
            assert(seg@ =~= Seq::<SyntaxElement>::empty() + seg@);
            assert(elems_leaves(Seq::<SyntaxElement>::empty()) =~= ts.subrange(
                p_exec as int,
                p_exec as int,
            ));
            lemma_children_append_ws(Seq::empty(), ts, p_exec as int, p_exec as int, w as int);
            assert(Seq::<SyntaxElement>::empty() + ws_leaves(ts, p_exec as int, w as int)
                =~= seg@);
        }
        seg
    }

    /// Parses a prefixed form: the reader-macro token followed by one form,
    /// or two for metadata, with any whitespace between attached as leaves.
    /// A prefix whose form is missing is parented under an error frame.
    #[verifier::rlimit(100)]
    #[verifier::spinoff_prover]
    fn parse_prefixed(&mut self, kind: SyntaxKind, two_forms: bool) -> (r: SyntaxElement)
        requires
            old(self).wf(),
            old(self).at() < old(self).toks().len(),
        ensures
            final(self).wf(),
            final(self).toks() == old(self).toks(),
            old(self).at() < final(self).at() <= old(self).toks().len(),
            elem_covers(r, old(self).toks(), old(self).at(), final(self).at()),
            pp_rel(old(self).toks(), old(self).at(), r, final(self).at(), kind, two_forms),
        decreases self.toks().len() - self.at(), 1int,
    {
        let ghost ts = self.toks();
        let ghost p0 = self.at();
        let tok = self.consume_token();
        let mut children: Vec<SyntaxElement> = Vec::new();
        proof {
            lemma_single_token_covers(tok, ts, p0);
            assert(elems_leaves(Seq::<SyntaxElement>::empty()) =~= ts.subrange(p0, p0));
            lemma_children_push(Seq::empty(), ts, p0, p0, p0 + 1, SyntaxElement::Token(tok));
            assert(children@.push(SyntaxElement::Token(tok)) =~= Seq::empty().push(
                SyntaxElement::Token(tok),
            ));
        }
        let start: usize = tok.start;
        children.push(SyntaxElement::Token(tok));
        let first = self.operand();
        let ghost seg1 = first.0@;
        let ghost q1 = self.at();
        let got1 = first.1;
        let mut s1 = first.0;
        children.append(&mut s1);
        proof {
            lemma_children_concat(
                seq![SyntaxElement::Token(tok)],
                seg1,
                ts,
                p0,
                p0 + 1,
                q1,
            );
            assert(children@ =~= seq![SyntaxElement::Token(tok)] + seg1);
        }
        let mut complete = got1;
        let ghost mut seg2: Seq<SyntaxElement> = Seq::empty();
        if got1 && two_forms {
            let second = self.operand();
            proof {
                seg2 = second.0@;
            }
            let got2 = second.1;
            let mut s2 = second.0;
            children.append(&mut s2);
            proof {
                lemma_children_concat(
                    seq![SyntaxElement::Token(tok)] + seg1,
                    seg2,
                    ts,
                    p0,
                    q1,
                    self.at(),
                );
                assert(children@ =~= (seq![SyntaxElement::Token(tok)] + seg1) + seg2);
            }
            complete = got2;
        }
        let end: usize = elem_end_exec(&children[children.len() - 1]);
        let node = SyntaxNode { kind, start, end, children };
        proof {
            lemma_node_covers(node, ts, p0, self.at());
        }
        let out = if complete {
            SyntaxElement::Node(node)
        } else {
            self.wrap_error_node(node, Ghost(ts), Ghost(p0))
        };
        proof {
            if two_forms && got1 {
                lemma_pp_two(ts, p0, out, seg1, q1, seg2, self.at(), complete, kind);
            } else {
                lemma_pp_one(ts, p0, out, seg1, q1, got1, kind, two_forms);
            }
        }
        out
    }

    /// Parses a quote.
    fn parse_quote(&mut self) -> (r: SyntaxElement)
        requires
            old(self).wf(),
            old(self).at() < old(self).toks().len(),
        ensures
            final(self).wf(),
            final(self).toks() == old(self).toks(),
            old(self).at() < final(self).at() <= old(self).toks().len(),
            elem_covers(r, old(self).toks(), old(self).at(), final(self).at()),
            pp_rel(old(self).toks(), old(self).at(), r, final(self).at(), SyntaxKind::Quote, false),
        decreases self.toks().len() - self.at(), 2int,
    {
        self.parse_prefixed(SyntaxKind::Quote, false)
    }

    /// Parses a backtick.
    fn parse_backtick(&mut self) -> (r: SyntaxElement)
        requires
            old(self).wf(),
            old(self).at() < old(self).toks().len(),
        ensures
            final(self).wf(),
            final(self).toks() == old(self).toks(),
            old(self).at() < final(self).at() <= old(self).toks().len(),
            elem_covers(r, old(self).toks(), old(self).at(), final(self).at()),
            pp_rel(old(self).toks(), old(self).at(), r, final(self).at(), SyntaxKind::Backtick, false),
        decreases self.toks().len() - self.at(), 2int,
    {
        self.parse_prefixed(SyntaxKind::Backtick, false)
    }

    /// Parses an unquote, written with a tilde or with the comma alias.
    fn parse_unquote(&mut self) -> (r: SyntaxElement)
        requires
            old(self).wf(),
            old(self).at() < old(self).toks().len(),
        ensures
            final(self).wf(),
            final(self).toks() == old(self).toks(),
            old(self).at() < final(self).at() <= old(self).toks().len(),
            elem_covers(r, old(self).toks(), old(self).at(), final(self).at()),
            pp_rel(old(self).toks(), old(self).at(), r, final(self).at(), SyntaxKind::Unquote, false),
        decreases self.toks().len() - self.at(), 2int,
    {
        self.parse_prefixed(SyntaxKind::Unquote, false)
    }

    /// Parses an unquote-splicing.
    fn parse_unquote_splicing(&mut self) -> (r: SyntaxElement)
        requires
            old(self).wf(),
            old(self).at() < old(self).toks().len(),
        ensures
            final(self).wf(),
            final(self).toks() == old(self).toks(),
            old(self).at() < final(self).at() <= old(self).toks().len(),
            elem_covers(r, old(self).toks(), old(self).at(), final(self).at()),
            pp_rel(old(self).toks(), old(self).at(), r, final(self).at(), SyntaxKind::UnquoteSplicing, false),
        decreases self.toks().len() - self.at(), 2int,
    {
        self.parse_prefixed(SyntaxKind::UnquoteSplicing, false)
    }

    /// Parses a metadata form: the metadata and then the decorated form.
    fn parse_meta(&mut self) -> (r: SyntaxElement)
        requires
            old(self).wf(),
            old(self).at() < old(self).toks().len(),
        ensures
            final(self).wf(),
            final(self).toks() == old(self).toks(),
            old(self).at() < final(self).at() <= old(self).toks().len(),
            elem_covers(r, old(self).toks(), old(self).at(), final(self).at()),
            pp_rel(old(self).toks(), old(self).at(), r, final(self).at(), SyntaxKind::Meta, true),
        decreases self.toks().len() - self.at(), 2int,
    {
        self.parse_prefixed(SyntaxKind::Meta, true)
    }

    /// Parses a tag.
    fn parse_tag(&mut self) -> (r: SyntaxElement)
        requires
            old(self).wf(),
            old(self).at() < old(self).toks().len(),
        ensures
            final(self).wf(),
            final(self).toks() == old(self).toks(),
            old(self).at() < final(self).at() <= old(self).toks().len(),
            elem_covers(r, old(self).toks(), old(self).at(), final(self).at()),
            pp_rel(old(self).toks(), old(self).at(), r, final(self).at(), SyntaxKind::Tag, false),
        decreases self.toks().len() - self.at(), 2int,
    {
        self.parse_prefixed(SyntaxKind::Tag, false)
    }

    /// Parses a discard: the discard mark and the discarded form.
    fn parse_discard(&mut self) -> (r: SyntaxElement)
        requires
            old(self).wf(),
            old(self).at() < old(self).toks().len(),
        ensures
            final(self).wf(),
            final(self).toks() == old(self).toks(),
            old(self).at() < final(self).at() <= old(self).toks().len(),
            elem_covers(r, old(self).toks(), old(self).at(), final(self).at()),
            pp_rel(old(self).toks(), old(self).at(), r, final(self).at(), SyntaxKind::Discard, false),
        decreases self.toks().len() - self.at(), 2int,
    {
        self.parse_prefixed(SyntaxKind::Discard, false)
    }

    /// Parses a single-token node of the given kind.
    #[verifier::rlimit(100)]
    #[verifier::spinoff_prover]
    fn parse_literal(&mut self, kind: SyntaxKind) -> (r: SyntaxElement)
        requires
            old(self).wf(),
            old(self).at() < old(self).toks().len(),
        ensures
            final(self).wf(),
            final(self).toks() == old(self).toks(),
            final(self).at() == old(self).at() + 1,
            elem_covers(r, old(self).toks(), old(self).at(), final(self).at()),
            lit_rel(old(self).toks(), old(self).at(), r, final(self).at(), kind),
        decreases self.toks().len() - self.at(), 1int,
    {
        let ghost ts = self.toks();
        let ghost p0 = self.at();
        let tok = self.consume_token();
        let start: usize = tok.start;
        let end: usize = tok.end;
        let mut children: Vec<SyntaxElement> = Vec::new();
        proof {
            lemma_single_token_covers(tok, ts, p0);
            assert(elems_leaves(Seq::<SyntaxElement>::empty()) =~= ts.subrange(p0, p0));
            lemma_children_push(Seq::empty(), ts, p0, p0, p0 + 1, SyntaxElement::Token(tok));
            assert(children@.push(SyntaxElement::Token(tok)) =~= Seq::empty().push(
                SyntaxElement::Token(tok),
            ));
        }
        children.push(SyntaxElement::Token(tok));
        let node = SyntaxNode { kind, start, end, children };
        proof {
            lemma_node_covers(node, ts, p0, self.at());
        }
        SyntaxElement::Node(node)
    }

    /// Parses a string literal node.
    fn parse_string(&mut self) -> (r: SyntaxElement)
        requires
            old(self).wf(),
            old(self).at() < old(self).toks().len(),
        ensures
            final(self).wf(),
            final(self).toks() == old(self).toks(),
            final(self).at() == old(self).at() + 1,
            elem_covers(r, old(self).toks(), old(self).at(), final(self).at()),
            lit_rel(old(self).toks(), old(self).at(), r, final(self).at(), SyntaxKind::StringLit),
        decreases self.toks().len() - self.at(), 2int,
    {
        self.parse_literal(SyntaxKind::StringLit)
    }

    /// Parses a number literal node.
    fn parse_number(&mut self) -> (r: SyntaxElement)
        requires
            old(self).wf(),
            old(self).at() < old(self).toks().len(),
        ensures
            final(self).wf(),
            final(self).toks() == old(self).toks(),
            final(self).at() == old(self).at() + 1,
            elem_covers(r, old(self).toks(), old(self).at(), final(self).at()),
            lit_rel(old(self).toks(), old(self).at(), r, final(self).at(), SyntaxKind::NumberLit),
        decreases self.toks().len() - self.at(), 2int,
    {
        self.parse_literal(SyntaxKind::NumberLit)
    }

    /// Parses a character literal node.
    fn parse_character(&mut self) -> (r: SyntaxElement)
        requires
            old(self).wf(),
            old(self).at() < old(self).toks().len(),
        ensures
            final(self).wf(),
            final(self).toks() == old(self).toks(),
            final(self).at() == old(self).at() + 1,
            elem_covers(r, old(self).toks(), old(self).at(), final(self).at()),
            lit_rel(old(self).toks(), old(self).at(), r, final(self).at(), SyntaxKind::CharacterLit),
        decreases self.toks().len() - self.at(), 2int,
    {
        self.parse_literal(SyntaxKind::CharacterLit)
    }

    /// Parses a keyword literal node.
    fn parse_keyword(&mut self) -> (r: SyntaxElement)
        requires
            old(self).wf(),
            old(self).at() < old(self).toks().len(),
        ensures
            final(self).wf(),
            final(self).toks() == old(self).toks(),
            final(self).at() == old(self).at() + 1,
            elem_covers(r, old(self).toks(), old(self).at(), final(self).at()),
            lit_rel(old(self).toks(), old(self).at(), r, final(self).at(), SyntaxKind::KeywordLit),
        decreases self.toks().len() - self.at(), 2int,
    {
        self.parse_literal(SyntaxKind::KeywordLit)
    }

    /// Parses a symbol literal node.
    fn parse_symbol(&mut self) -> (r: SyntaxElement)
        requires
            old(self).wf(),
            old(self).at() < old(self).toks().len(),
        ensures
            final(self).wf(),
            final(self).toks() == old(self).toks(),
            final(self).at() == old(self).at() + 1,
            elem_covers(r, old(self).toks(), old(self).at(), final(self).at()),
            lit_rel(old(self).toks(), old(self).at(), r, final(self).at(), SyntaxKind::SymbolLit),
        decreases self.toks().len() - self.at(), 2int,
    {
        self.parse_literal(SyntaxKind::SymbolLit)
    }

    /// Parses the whole stream into the root node. The root covers every
    /// token: stray closing delimiters and malformed tokens are embedded
    /// under `Error` nodes, and the terminating `Eof` token is the root's
    /// last leaf.
    #[verifier::rlimit(100)]
    #[verifier::spinoff_prover]
    pub fn parse(self) -> (r: SyntaxNode)
        requires
            self.wf(),
            self.at() == 0,
            self.toks().len() >= 1,
        ensures
            node_wf(r),
            r.kind == SyntaxKind::Root,
            node_leaves(r) == self.toks(),
            r.start == self.toks()[0].start,
            r.end == self.toks().last().end,
            parse_root_rel(self.toks(), r),
    {
        let mut this = self;
        let ghost ts = this.toks();
        let start: usize = this.tokens[0].start;
        let children = this.parse_root_items();
        let n = children.len();
        proof {
            assert(children@.len() >= 1);
        }
        let end: usize = elem_end_exec(&children[n - 1]);
        let node = SyntaxNode { kind: SyntaxKind::Root, start, end, children };
        proof {
            lemma_node_covers(node, ts, 0, ts.len() as int);
            assert(node_leaves(node) == ts.subrange(0, ts.len() as int));
            assert(ts.subrange(0, ts.len() as int) =~= ts);
            lemma_root_intro(ts, node);
        }
        node
    }

    /// Parses every remaining token into root items: forms where forms
    /// start, the `Eof` token as a plain leaf, and stray closing delimiters
    /// under error nodes.
    #[verifier::rlimit(100)]
    #[verifier::spinoff_prover]
    fn parse_root_items(&mut self) -> (r: Vec<SyntaxElement>)
        requires
            old(self).wf(),
        ensures
            final(self).wf(),
            final(self).toks() == old(self).toks(),
            old(self).at() <= final(self).at() <= old(self).toks().len(),
            final(self).at() == old(self).toks().len(),
            children_ok(r@, old(self).toks(), old(self).at(), final(self).at()),
            ri_rel(old(self).toks(), old(self).at(), r@, final(self).at()),
        decreases self.toks().len() - self.at(), 4int,
    {
        let ghost ts = self.toks();
        let ghost p = self.at();
        if self.pos >= self.tokens.len() {
            let r: Vec<SyntaxElement> = Vec::new();
            proof {
                assert(elems_leaves(r@) =~= ts.subrange(p, p));
                lemma_ri_nil(ts, p);
            }
            return r;
        }
        match self.parse_form() {
            Some(e) => {
                let ghost eg = e;
                let ghost m = self.at();
                let rest = self.parse_root_items();
                let ghost restg = rest@;
                let mut r = rest;
                r.insert(0, e);
                proof {
                    assert(r@ =~= seq![eg] + restg);
                    lemma_children_cons(eg, restg, ts, p, m, self.at());
                    lemma_ri_cons_form(ts, p, eg, m, restg, self.at());
                }
                r
            },
            None => {
                let k = self.peek_kind();
                if k == TokenKind::Eof {
                    let t = self.consume_token();
                    let rest = self.parse_root_items();
                    let ghost restg = rest@;
                    let mut r = rest;
                    r.insert(0, SyntaxElement::Token(t));
                    proof {
                        assert(r@ =~= seq![SyntaxElement::Token(t)] + restg);
                        lemma_single_token_covers(t, ts, p);
                        lemma_children_cons(SyntaxElement::Token(t), restg, ts, p, p + 1, self.at());
                        lemma_ri_cons_eof(ts, p, restg, self.at());
                    }
                    r
                } else {
                    let e = self.parse_literal(SyntaxKind::Error);
                    let ghost eg = e;
                    let rest = self.parse_root_items();
                    let ghost restg = rest@;
                    let mut r = rest;
                    r.insert(0, e);
                    proof {
                        assert(r@ =~= seq![eg] + restg);
                        lemma_children_cons(eg, restg, ts, p, p + 1, self.at());
                        lemma_ri_cons_err(ts, p, eg, restg, self.at());
                    }
                    r
                }
            },
        }
    }
}

/// What parsing a whole stream builds, introduced from its parts.
pub proof fn lemma_root_intro(ts: Seq<Token>, root: SyntaxNode)
    requires
        ts.len() >= 1,
        root.kind == SyntaxKind::Root,
        ri_rel(ts, 0, root.children@, ts.len() as int),
        children_ok(root.children@, ts, 0, ts.len() as int),
        root.start == ts[0].start,
        root.end == ts[ts.len() - 1].end,
    ensures
        parse_root_rel(ts, root),
{
    reveal(parse_root_rel);
}

} // verus!