//! The concrete syntax tree: a persistent tree whose leaves are lexer tokens
//! and whose composite nodes are syntactic categories. The tree is lossless:
//! concatenating the text of its leaves in order yields the parsed source
//! exactly, and every node's range is derived from its subtree's leaves.

use vstd::prelude::*;

use crate::lexer::texts_concat;
use crate::syntax::SyntaxKind;
use crate::token::Token;

verus! {

/// A child of a composite node: either a nested composite node or a leaf
/// token.
#[derive(Debug)]
pub enum SyntaxElement {
    Node(SyntaxNode),
    Token(Token),
}

/// A composite node of the concrete syntax tree: a kind, the half-open
/// character range it covers, and its ordered children.
#[derive(Debug)]
pub struct SyntaxNode {
    /// The syntactic category of this node.
    pub kind: SyntaxKind,
    /// The start of the range the node covers.
    pub start: usize,
    /// The end of the range the node covers.
    pub end: usize,
    /// The children, composites and leaves interleaved, in source order.
    pub children: Vec<SyntaxElement>,
}

/// The start position of an element.
pub open spec fn elem_start(e: SyntaxElement) -> int {
    match e {
        SyntaxElement::Node(n) => n.start as int,
        SyntaxElement::Token(t) => t.start as int,
    }
}

/// The end position of an element.
pub open spec fn elem_end(e: SyntaxElement) -> int {
    match e {
        SyntaxElement::Node(n) => n.end as int,
        SyntaxElement::Token(t) => t.end as int,
    }
}

/// Well-formedness of an element. A leaf is well formed when its token is; a
/// composite node is well formed when it has at least one child, its range
/// is exactly the span from its first child's start to its last child's end,
/// its children's ranges are contiguous and non-overlapping, and every child
/// is well formed in turn.
pub open spec fn elem_wf(e: SyntaxElement) -> bool
    decreases e,
{
    match e {
        SyntaxElement::Token(t) => t.wf(),
        SyntaxElement::Node(n) => {
            &&& n.children@.len() >= 1
            &&& n.start as int == elem_start(n.children@[0])
            &&& n.end as int == elem_end(n.children@.last())
            &&& forall|i: int|
                0 <= i < n.children@.len() - 1 ==> elem_end(#[trigger] n.children@[i])
                    == elem_start(n.children@[i + 1])
            &&& forall|i: int| 0 <= i < n.children@.len() ==> elem_wf(#[trigger] n.children@[i])
        },
    }
}

/// Well-formedness of a composite node.
pub open spec fn node_wf(n: SyntaxNode) -> bool {
    elem_wf(SyntaxElement::Node(n))
}

/// The leaf tokens of an element, in source order.
pub open spec fn elem_leaves(e: SyntaxElement) -> Seq<Token>
    decreases e, 1int,
{
    match e {
        SyntaxElement::Token(t) => seq![t],
        SyntaxElement::Node(n) => elems_leaves(n.children@),
    }
}

/// The leaf tokens of a sequence of elements, in source order.
pub open spec fn elems_leaves(es: Seq<SyntaxElement>) -> Seq<Token>
    decreases es, 0int,
{
    if es.len() == 0 {
        Seq::empty()
    } else {
        elem_leaves(es[0]) + elems_leaves(es.drop_first())
    }
}

/// The leaf tokens of a composite node.
pub open spec fn node_leaves(n: SyntaxNode) -> Seq<Token> {
    elem_leaves(SyntaxElement::Node(n))
}

/// The text of an element: the in-order concatenation of its leaves' texts.
pub open spec fn elem_text(e: SyntaxElement) -> Seq<char> {
    texts_concat(elem_leaves(e))
}

/// The text of a composite node.
pub open spec fn node_text(n: SyntaxNode) -> Seq<char> {
    elem_text(SyntaxElement::Node(n))
}

/// A token sequence tiles the range `[a, b)`: it is non-empty, starts at
/// `a`, ends at `b`, each token is well formed, and consecutive tokens meet
/// exactly.
pub open spec fn leaves_tile(ts: Seq<Token>, a: int, b: int) -> bool {
    &&& ts.len() >= 1
    &&& ts[0].start as int == a
    &&& ts.last().end as int == b
    &&& forall|i: int| 0 <= i < ts.len() ==> (#[trigger] ts[i]).wf()
    &&& forall|i: int|
        0 <= i < ts.len() - 1 ==> (#[trigger] ts[i]).end as int == ts[i + 1].start as int
}

/// Appending an element appends its leaves.
pub proof fn lemma_elems_leaves_push(es: Seq<SyntaxElement>, e: SyntaxElement)
    ensures
        elems_leaves(es.push(e)) == elems_leaves(es) + elem_leaves(e),
    decreases es.len(),
{
    if es.len() == 0 {
        assert(es.push(e).drop_first() =~= Seq::<SyntaxElement>::empty());
        assert(elems_leaves(Seq::<SyntaxElement>::empty()) =~= Seq::<Token>::empty());
        assert(es.push(e)[0] == e);
        assert(elems_leaves(es.push(e)) =~= elems_leaves(es) + elem_leaves(e));
    } else {
        assert(es.push(e).drop_first() =~= es.drop_first().push(e));
        lemma_elems_leaves_push(es.drop_first(), e);
        assert(elems_leaves(es.push(e)) =~= elems_leaves(es) + elem_leaves(e));
    }
}

/// Concatenating token sequences concatenates their texts.
pub proof fn lemma_texts_concat_app(xs: Seq<Token>, ys: Seq<Token>)
    ensures
        texts_concat(xs + ys) == texts_concat(xs) + texts_concat(ys),
    decreases xs.len(),
{
    if xs.len() == 0 {
        assert(xs + ys =~= ys);
        assert(texts_concat(xs) =~= Seq::<char>::empty());
        assert(texts_concat(xs + ys) =~= texts_concat(xs) + texts_concat(ys));
    } else {
        assert((xs + ys).drop_first() =~= xs.drop_first() + ys);
        lemma_texts_concat_app(xs.drop_first(), ys);
        assert((xs + ys)[0] == xs[0]);
        assert(texts_concat(xs + ys) =~= texts_concat(xs) + texts_concat(ys));
    }
}

/// Two adjacent tilings join into one.
#[verifier::rlimit(100)]
#[verifier::spinoff_prover]
pub proof fn lemma_leaves_tile_join(xs: Seq<Token>, ys: Seq<Token>, a: int, m: int, b: int)
    requires
        leaves_tile(xs, a, m),
        leaves_tile(ys, m, b),
    ensures
        leaves_tile(xs + ys, a, b),
{
    let zs = xs + ys;
    assert(zs[0] == xs[0]);
    assert(zs.last() == ys.last());
    assert forall|i: int| 0 <= i < zs.len() implies (#[trigger] zs[i]).wf() by {
        if i < xs.len() {
            assert(zs[i] == xs[i]);
        } else {
            assert(zs[i] == ys[i - xs.len()]);
        }
    }
    assert forall|i: int| 0 <= i < zs.len() - 1 implies (#[trigger] zs[i]).end as int == zs[i
        + 1].start as int by {
        if i < xs.len() - 1 {
            assert(zs[i] == xs[i]);
            assert(zs[i + 1] == xs[i + 1]);
        } else if i == xs.len() - 1 {
            assert(zs[i] == xs.last());
            assert(zs[i + 1] == ys[0]);
        } else {
            assert(zs[i] == ys[i - xs.len()]);
            assert(zs[i + 1] == ys[i + 1 - xs.len()]);
        }
    }
}

/// The well-formedness theorem for the tree: the leaves of a well-formed
/// element tile its range exactly. In particular a composite node starts at
/// the start of its first leaf and ends at the end of its last leaf.
pub proof fn lemma_wf_leaves_tile(e: SyntaxElement)
    requires
        elem_wf(e),
    ensures
        leaves_tile(elem_leaves(e), elem_start(e), elem_end(e)),
    decreases e, 1int,
{
    match e {
        SyntaxElement::Token(t) => {
            assert(elem_leaves(e) =~= seq![t]);
        },
        SyntaxElement::Node(n) => {
            lemma_wf_children_tile(n.children@);
        },
    }
}

/// The leaves of a contiguous, well-formed, non-empty child sequence tile
/// the span from the first child's start to the last child's end.
#[verifier::rlimit(100)]
#[verifier::spinoff_prover]
pub proof fn lemma_wf_children_tile(es: Seq<SyntaxElement>)
    requires
        es.len() >= 1,
        forall|i: int|
            0 <= i < es.len() - 1 ==> elem_end(#[trigger] es[i]) == elem_start(es[i + 1]),
        forall|i: int| 0 <= i < es.len() ==> elem_wf(#[trigger] es[i]),
    ensures
        leaves_tile(elems_leaves(es), elem_start(es[0]), elem_end(es.last())),
    decreases es, 0int,
{
    lemma_wf_leaves_tile(es[0]);
    if es.len() == 1 {
        assert(elems_leaves(es.drop_first()) =~= Seq::<Token>::empty());
        assert(elems_leaves(es) =~= elem_leaves(es[0]));
    } else {
        let rest = es.drop_first();
        assert forall|i: int| 0 <= i < rest.len() - 1 implies elem_end(#[trigger] rest[i])
            == elem_start(rest[i + 1]) by {
            assert(rest[i] == es[i + 1]);
            assert(rest[i + 1] == es[i + 2]);
        }
        assert forall|i: int| 0 <= i < rest.len() implies elem_wf(#[trigger] rest[i]) by {
            assert(rest[i] == es[i + 1]);
        }
        lemma_wf_children_tile(rest);
        assert(rest[0] == es[1]);
        assert(rest.last() == es.last());
        lemma_leaves_tile_join(
            elem_leaves(es[0]),
            elems_leaves(rest),
            elem_start(es[0]),
            elem_end(es[0]),
            elem_end(es.last()),
        );
    }
}

/// The text of a tiling is exactly as long as the range it tiles.
#[verifier::rlimit(100)]
#[verifier::spinoff_prover]
pub proof fn lemma_tile_text_len(ts: Seq<Token>, a: int, b: int)
    requires
        leaves_tile(ts, a, b),
    ensures
        texts_concat(ts).len() == b - a,
    decreases ts.len(),
{
    if ts.len() == 1 {
        assert(texts_concat(ts.drop_first()) =~= Seq::<char>::empty());
    } else {
        let rest = ts.drop_first();
        assert forall|i: int| 0 <= i < rest.len() - 1 implies (#[trigger] rest[i]).end as int
            == rest[i + 1].start as int by {
            assert(rest[i] == ts[i + 1]);
            assert(rest[i + 1] == ts[i + 2]);
        }
        assert forall|i: int| 0 <= i < rest.len() implies (#[trigger] rest[i]).wf() by {
            assert(rest[i] == ts[i + 1]);
        }
        assert(rest[0] == ts[1]);
        assert(rest.last() == ts.last());
        assert(ts[0].end as int == ts[1].start as int);
        lemma_tile_text_len(rest, ts[1].start as int, b);
    }
}

impl SyntaxNode {
    /// The kind of this node.
    pub fn kind(&self) -> (k: SyntaxKind)
        ensures
            k == self.kind,
    {
        self.kind
    }

    /// The number of children of this node.
    pub fn num_children(&self) -> (n: usize)
        ensures
            n == self.children@.len(),
    {
        self.children.len()
    }
}

} // verus!
