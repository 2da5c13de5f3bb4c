//! The untyped, immutable syntax tree. Nodes own their children; whole
//! subtrees are shared by reference count, so rewrites can reuse
//! unchanged subtrees without copying. Parent navigation is by child
//! paths (index lists), never by an owning back edge.

use vstd::prelude::*;
use crate::syntax::{SyntaxKind, Token, token_full_text, push_token_text, trivia_concat};
use std::rc::Rc;

verus! {

broadcast use vstd::std_specs::vec::axiom_vec_index_decreases;

/// A child slot of a node: either a subtree or a token.
pub enum SyntaxElement {
    Node(Rc<SyntaxNode>),
    Token(Rc<Token>),
}

/// Relies on std's Rc::clone: the clone is a second handle to the very
/// same value, so the result equals the argument.
#[verifier::external_body]
pub(crate) fn clone_rc_node(v: &Rc<SyntaxNode>) -> (r: Rc<SyntaxNode>)
    ensures
        r == *v,
{
    Rc::clone(v)
}

/// Relies on std's Rc::clone: the clone is a second handle to the very
/// same value, so the result equals the argument.
#[verifier::external_body]
pub(crate) fn clone_rc_token(v: &Rc<Token>) -> (r: Rc<Token>)
    ensures
        r == *v,
{
    Rc::clone(v)
}

/// An interior tree element: a kind tag and its ordered children.
pub struct SyntaxNode {
    pub kind: SyntaxKind,
    pub children: Vec<SyntaxElement>,
}

/// Exact source text of one element.
pub open spec fn elem_text(e: SyntaxElement) -> Seq<u8>
    decreases e, 2int, 0int,
{
    match e {
        SyntaxElement::Token(t) => token_full_text(*t),
        SyntaxElement::Node(n) => node_text(*n),
    }
}

/// Exact source text of a node: the concatenation of its children's text.
pub open spec fn node_text(n: SyntaxNode) -> Seq<u8>
    decreases n, 1int, 0int,
{
    children_text_upto(n, n.children.len() as int)
}

/// Text of the first `k` children of `n`.
pub open spec fn children_text_upto(n: SyntaxNode, k: int) -> Seq<u8>
    decreases n, 0int, k,
{
    if k <= 0 || k > n.children.len() {
        Seq::empty()
    } else {
        children_text_upto(n, k - 1) + elem_text(n.children[k - 1])
    }
}

/// The node inside an element (meaningful only when there is one).
pub open spec fn node_of(e: SyntaxElement) -> SyntaxNode {
    match e {
        SyntaxElement::Node(m) => *m,
        SyntaxElement::Token(_) => arbitrary(),
    }
}

/// The token inside an element (meaningful only when there is one).
pub open spec fn token_of(e: SyntaxElement) -> Token {
    match e {
        SyntaxElement::Token(t) => *t,
        SyntaxElement::Node(_) => arbitrary(),
    }
}

/// Whether any token occurs inside the element.
pub open spec fn elem_has_token(e: SyntaxElement) -> bool
    decreases e, 2int, 0int,
{
    match e {
        SyntaxElement::Token(_) => true,
        SyntaxElement::Node(n) => node_has_token(*n),
    }
}

pub open spec fn node_has_token(n: SyntaxNode) -> bool
    decreases n, 1int, 0int,
{
    exists|j: int| 0 <= j < n.children@.len() && elem_has_token(n.children[j])
}

/// Text of the leading trivia of the element's first token; empty for
/// a token-free element.
pub open spec fn lead_text(e: SyntaxElement) -> Seq<u8>
    decreases e, 2int, 0int,
{
    match e {
        SyntaxElement::Token(t) => trivia_concat(t.leading@),
        SyntaxElement::Node(n) => children_lead_text_from(*n, 0),
    }
}

pub open spec fn children_lead_text_from(n: SyntaxNode, k: int) -> Seq<u8>
    decreases n, 0int, n.children.len() - k,
{
    if k < 0 || k >= n.children.len() {
        Seq::empty()
    } else if elem_has_token(n.children[k]) {
        lead_text(n.children[k])
    } else {
        children_lead_text_from(n, k + 1)
    }
}

/// Text of the trailing trivia of the element's last token; empty for
/// a token-free element.
pub open spec fn trail_text(e: SyntaxElement) -> Seq<u8>
    decreases e, 2int, 0int,
{
    match e {
        SyntaxElement::Token(t) => trivia_concat(t.trailing@),
        SyntaxElement::Node(n) => children_trail_text_upto(*n, n.children.len() as int),
    }
}

pub open spec fn children_trail_text_upto(n: SyntaxNode, k: int) -> Seq<u8>
    decreases n, 0int, k,
{
    if k <= 0 || k > n.children.len() {
        Seq::empty()
    } else if elem_has_token(n.children[k - 1]) {
        trail_text(n.children[k - 1])
    } else {
        children_trail_text_upto(n, k - 1)
    }
}

/// A token-free element holds no text at all: text comes from tokens
/// and the trivia attached to them.
pub proof fn lemma_no_token_no_text(e: SyntaxElement)
    requires
        !elem_has_token(e),
    ensures
        elem_text(e).len() == 0,
    decreases e, 2int, 0int,
{
    if e is Node {
        let n = node_of(e);
        assert(node_of(e) == e->Node_0);
        lemma_no_token_children(n, n.children@.len() as int);
        assert(elem_text(e) == node_text(n));
    }
}

proof fn lemma_no_token_children(n: SyntaxNode, k: int)
    requires
        0 <= k <= n.children@.len(),
        forall|j: int| 0 <= j < k ==> !elem_has_token(n.children@[j]),
    ensures
        children_text_upto(n, k).len() == 0,
    decreases n, 1int, k,
{
    if k > 0 {
        lemma_no_token_children(n, k - 1);
        lemma_no_token_no_text(n.children@[k - 1]);
    }
}

/// A list of token-free elements holds no text.
pub proof fn lemma_token_free_elems(s: Seq<SyntaxElement>)
    requires
        forall|j: int| 0 <= j < s.len() ==> !elem_has_token(s[j]),
    ensures
        elems_text(s).len() == 0,
    decreases s.len(),
{
    if s.len() > 0 {
        lemma_token_free_elems(s.drop_last());
        lemma_no_token_no_text(s.last());
    }
}

/// Scan for a token in the element.
pub fn element_has_token(e: &SyntaxElement) -> (r: bool)
    ensures
        r == elem_has_token(*e),
    decreases *e,
{
    match e {
        SyntaxElement::Token(_) => true,
        SyntaxElement::Node(n) => {
            let mut i: usize = 0;
            while i < n.children.len()
                invariant
                    *e == SyntaxElement::Node(*n),
                    0 <= i <= n.children@.len(),
                    forall|m: int| 0 <= m < i ==> !elem_has_token(n.children@[m]),
                decreases n.children@.len() - i,
            {
                proof {
                    assert(decreases_to!(*e => e->Node_0));
                    assert(e->Node_0 == *n);
                    assert(decreases_to!(*n => n.children[i as int]));
                }
                if element_has_token(&n.children[i]) {
                    proof {
                        assert(elem_has_token(n.children@[i as int]));
                        assert(node_has_token(**n));
                    }
                    return true;
                }
                i = i + 1;
            }
            false
        },
    }
}

/// Exact source text of a list of elements.
pub open spec fn elems_text(s: Seq<SyntaxElement>) -> Seq<u8>
    decreases s,
{
    if s.len() == 0 {
        Seq::empty()
    } else {
        elems_text(s.drop_last()) + elem_text(s.last())
    }
}

proof fn lemma_upto_is_elems(n: SyntaxNode, k: int)
    requires
        0 <= k <= n.children@.len(),
    ensures
        children_text_upto(n, k) == elems_text(n.children@.subrange(0, k)),
    decreases k,
{
    if k == 0 {
        assert(n.children@.subrange(0, 0) =~= Seq::<SyntaxElement>::empty());
    } else {
        lemma_upto_is_elems(n, k - 1);
        assert(n.children@.subrange(0, k).drop_last() =~= n.children@.subrange(0, k - 1));
        assert(n.children@.subrange(0, k).last() == n.children@[k - 1]);
    }
}

/// A node's text is its children's text.
pub proof fn lemma_node_text_is_elems(n: SyntaxNode)
    ensures
        node_text(n) == elems_text(n.children@),
{
    lemma_upto_is_elems(n, n.children@.len() as int);
    assert(n.children@.subrange(0, n.children@.len() as int) =~= n.children@);
}

/// Splitting an element list splits its text.
pub proof fn lemma_elems_text_concat(a: Seq<SyntaxElement>, b: Seq<SyntaxElement>)
    ensures
        elems_text(a + b) == elems_text(a) + elems_text(b),
    decreases b.len(),
{
    if b.len() == 0 {
        assert(a + b =~= a);
        assert(elems_text(a) + elems_text(b) =~= elems_text(a));
    } else {
        lemma_elems_text_concat(a, b.drop_last());
        assert((a + b).drop_last() =~= a + b.drop_last());
        assert((a + b).last() == b.last());
        assert(elems_text(a) + elems_text(b.drop_last()) + elem_text(b.last()) =~= elems_text(a)
            + elems_text(b));
    }
}

/// Cheap handle copy of an element; the result is the same value.
pub fn clone_element(e: &SyntaxElement) -> (r: SyntaxElement)
    ensures
        r == *e,
{
    match e {
        SyntaxElement::Node(n) => SyntaxElement::Node(clone_rc_node(n)),
        SyntaxElement::Token(t) => SyntaxElement::Token(clone_rc_token(t)),
    }
}

/// Append the exact text of `e` to `out`.
pub fn push_element_text(out: &mut Vec<u8>, e: &SyntaxElement)
    ensures
        final(out)@ == old(out)@ + elem_text(*e),
    decreases *e,
{
    match e {
        SyntaxElement::Token(t) => {
            push_token_text(out, t);
        },
        SyntaxElement::Node(n) => {
            let mut i: usize = 0;
            while i < n.children.len()
                invariant
                    *e == SyntaxElement::Node(*n),
                    0 <= i <= n.children.len(),
                    out@ == old(out)@ + children_text_upto(**n, i as int),
                decreases n.children.len() - i,
            {
                proof {
                    assert(*e == SyntaxElement::Node(*n));
                    assert(decreases_to!(*e => e->Node_0));
                    assert(e->Node_0 == *n);
                    assert(decreases_to!(*n => n.children[i as int]));
                }
                push_element_text(out, &n.children[i]);
                i = i + 1;
            }
        },
    }
}

/// Print a whole tree back to text; the library's round-trip guarantee
/// says this equals the parsed source byte for byte.
pub fn syntax_text(n: &SyntaxNode) -> (out: Vec<u8>)
    ensures
        out@ == node_text(*n),
{
    let mut out: Vec<u8> = Vec::new();
    let mut i: usize = 0;
    while i < n.children.len()
        invariant
            0 <= i <= n.children.len(),
            out@ == children_text_upto(*n, i as int),
        decreases n.children.len() - i,
    {
        push_element_text(&mut out, &n.children[i]);
        i = i + 1;
    }
    out
}

} // verus!
