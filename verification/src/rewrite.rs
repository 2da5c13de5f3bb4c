//! Rewriting: given a tree and a replacement for the element at a
//! child path, build a new tree that rebuilds only the ancestor path
//! and shares every untouched subtree with the original by reference
//! count. The original tree is never mutated, so readers of it are
//! never invalidated.
//!
//! Replacement takes the new element exactly as given, trivia
//! included; the name `replace_node_discard_trivia` says explicitly
//! that the old element's own trivia goes with it. A rewrite that
//! wants the old trivia kept builds the replacement from the original
//! tokens, which carry their trivia with them.

use vstd::prelude::*;
use crate::tree::{
    SyntaxNode, SyntaxElement, node_text, elem_text, elems_text, clone_element, node_of,
    lemma_node_text_is_elems, lemma_elems_text_concat, push_element_text,
};
use std::rc::Rc;

verus! {

/// `path` leads from `n` to an element: each step indexes the
/// children, and every step but the last lands on a node.
pub open spec fn path_valid(n: SyntaxNode, path: Seq<usize>) -> bool
    decreases path.len(),
{
    if path.len() == 0 {
        true
    } else {
        &&& (path[0] as int) < n.children@.len()
        &&& (if path.len() == 1 {
            true
        } else {
            match n.children@[path[0] as int] {
                SyntaxElement::Node(m) => path_valid(*m, path.drop_first()),
                SyntaxElement::Token(_) => false,
            }
        })
    }
}

/// The element a non-empty valid path leads to.
pub open spec fn element_at(n: SyntaxNode, path: Seq<usize>) -> SyntaxElement
    decreases path.len(),
{
    if path.len() <= 1 {
        n.children@[path[0] as int]
    } else {
        match n.children@[path[0] as int] {
            SyntaxElement::Node(m) => element_at(*m, path.drop_first()),
            SyntaxElement::Token(_) => n.children@[path[0] as int],
        }
    }
}

/// How the output of a replacement relates to its input: same kinds
/// and children everywhere except along `path`, and `e` at its end.
pub open spec fn replaced(o: SyntaxNode, n: SyntaxNode, path: Seq<usize>, e: SyntaxElement) -> bool
    decreases path.len(),
{
    if path.len() == 0 {
        false
    } else {
        let i = path[0] as int;
        &&& 0 <= i < o.children@.len()
        &&& n.kind == o.kind
        &&& n.children@.len() == o.children@.len()
        &&& (forall|j: int| 0 <= j < o.children@.len() && j != i ==> n.children@[j] == o.children@[j])
        &&& (if path.len() == 1 {
            n.children@[i] == e
        } else {
            match o.children@[i] {
                SyntaxElement::Node(om) => match n.children@[i] {
                    SyntaxElement::Node(nm) => replaced(*om, *nm, path.drop_first(), e),
                    SyntaxElement::Token(_) => false,
                },
                SyntaxElement::Token(_) => false,
            }
        })
    }
}

fn replace_at(n: &SyntaxNode, path: &Vec<usize>, d: usize, e: SyntaxElement) -> (r: SyntaxNode)
    requires
        d < path@.len(),
        path_valid(*n, path@.subrange(d as int, path@.len() as int)),
    ensures
        replaced(*n, r, path@.subrange(d as int, path@.len() as int), e),
    decreases path@.len() - d,
{
    let ghost sub = path@.subrange(d as int, path@.len() as int);
    proof {
        vstd::std_specs::vec::axiom_spec_len(path);
        vstd::std_specs::vec::axiom_spec_len(&n.children);
        assert(sub[0] == path@[d as int]);
        assert(sub.len() == path@.len() - d);
    }
    let i = path[d];
    let new_child: SyntaxElement = if d + 1 == path.len() {
        e
    } else {
        proof {
            assert(sub.drop_first() =~= path@.subrange(d + 1, path@.len() as int));
        }
        match &n.children[i] {
            SyntaxElement::Node(m) => {
                let rebuilt = replace_at(m, path, d + 1, e);
                SyntaxElement::Node(Rc::new(rebuilt))
            },
            SyntaxElement::Token(_) => {
                proof {
                    assert(false);
                }
                vstd::pervasive::unreached()
            },
        }
    };
    let ghost nc = new_child;
    let mut kids: Vec<SyntaxElement> = Vec::new();
    let mut j: usize = 0;
    while j < i
        invariant
            0 <= j <= i < n.children@.len(),
            kids@ =~= n.children@.subrange(0, j as int),
        decreases i - j,
    {
        kids.push(clone_element(&n.children[j]));
        proof {
            assert(kids@ =~= n.children@.subrange(0, j + 1));
        }
        j = j + 1;
    }
    kids.push(new_child);
    let mut j2: usize = i + 1;
    while j2 < n.children.len()
        invariant
            i < j2 <= n.children@.len(),
            kids@ =~= n.children@.subrange(0, i as int).push(nc) + n.children@.subrange(
                i + 1,
                j2 as int,
            ),
        decreases n.children@.len() - j2,
    {
        kids.push(clone_element(&n.children[j2]));
        proof {
            assert(kids@ =~= n.children@.subrange(0, i as int).push(nc) + n.children@.subrange(
                i + 1,
                j2 + 1,
            ));
        }
        j2 = j2 + 1;
    }
    let r = SyntaxNode { kind: n.kind, children: kids };
    proof {
        assert(r.children@.len() == n.children@.len());
        assert(forall|k: int|
            0 <= k < n.children@.len() && k != i ==> r.children@[k] == n.children@[k]);
        assert(r.children@[i as int] == nc);
    }
    r
}

/// Fetch (shared, not copied) the element a valid path leads to.
pub fn get_element(root: &SyntaxNode, path: &Vec<usize>) -> (r: SyntaxElement)
    requires
        path@.len() > 0,
        path_valid(*root, path@),
    ensures
        r == element_at(*root, path@),
{
    proof {
        assert(path@.subrange(0, path@.len() as int) =~= path@);
    }
    let mut cur: &SyntaxNode = root;
    let mut d: usize = 0;
    loop
        invariant
            d < path@.len(),
            path_valid(*cur, path@.subrange(d as int, path@.len() as int)),
            element_at(*root, path@) == element_at(
                *cur,
                path@.subrange(d as int, path@.len() as int),
            ),
        decreases path@.len() - d,
    {
        let ghost sub = path@.subrange(d as int, path@.len() as int);
        proof {
            vstd::std_specs::vec::axiom_spec_len(path);
            assert(sub[0] == path@[d as int]);
            assert(sub.drop_first() =~= path@.subrange(d + 1, path@.len() as int));
        }
        let i = path[d];
        if d + 1 == path.len() {
            return clone_element(&cur.children[i]);
        }
        match &cur.children[i] {
            SyntaxElement::Node(m) => {
                cur = m;
                d = d + 1;
            },
            SyntaxElement::Token(_) => {
                proof {
                    assert(false);
                }
                return vstd::pervasive::unreached();
            },
        }
    }
}

/// Byte span of the element at `path` within the whole tree's text.
pub fn node_span(root: &SyntaxNode, path: &Vec<usize>) -> (r: (usize, usize))
    requires
        path@.len() > 0,
        path_valid(*root, path@),
    ensures
        r.0 as int == path_offset(*root, path@),
        r.1 as int == path_offset(*root, path@) + elem_text(element_at(*root, path@)).len(),
{
    proof {
        assert(path@.subrange(0, path@.len() as int) =~= path@);
    }
    let mut buf: Vec<u8> = Vec::new();
    let mut cur: &SyntaxNode = root;
    let mut d: usize = 0;
    loop
        invariant
            d < path@.len(),
            path_valid(*cur, path@.subrange(d as int, path@.len() as int)),
            element_at(*root, path@) == element_at(
                *cur,
                path@.subrange(d as int, path@.len() as int),
            ),
            buf@.len() + path_offset(*cur, path@.subrange(d as int, path@.len() as int))
                == path_offset(*root, path@),
        decreases path@.len() - d,
    {
        let ghost sub = path@.subrange(d as int, path@.len() as int);
        proof {
            vstd::std_specs::vec::axiom_spec_len(path);
            vstd::std_specs::vec::axiom_spec_len(&cur.children);
            assert(sub[0] == path@[d as int]);
            assert(sub.drop_first() =~= path@.subrange(d + 1, path@.len() as int));
        }
        let i = path[d];
        let ghost base = buf@.len() as int;
        let mut j: usize = 0;
        proof {
            assert(cur.children@.subrange(0, 0) =~= Seq::<SyntaxElement>::empty());
        }
        while j < i
            invariant
                0 <= j <= i < cur.children@.len(),
                buf@.len() == base + elems_text(cur.children@.subrange(0, j as int)).len(),
            decreases i - j,
        {
            push_element_text(&mut buf, &cur.children[j]);
            proof {
                assert(cur.children@.subrange(0, j + 1).drop_last() =~= cur.children@.subrange(
                    0,
                    j as int,
                ));
                assert(cur.children@.subrange(0, j + 1).last() == cur.children@[j as int]);
            }
            j = j + 1;
        }
        if d + 1 == path.len() {
            let start = buf.len();
            push_element_text(&mut buf, &cur.children[i]);
            let end = buf.len();
            return (start, end);
        }
        match &cur.children[i] {
            SyntaxElement::Node(m) => {
                cur = m;
                d = d + 1;
            },
            SyntaxElement::Token(_) => {
                proof {
                    assert(false);
                }
                return vstd::pervasive::unreached();
            },
        }
    }
}

/// `a` is a prefix of `b` as child paths.
pub open spec fn is_prefix(a: Seq<usize>, b: Seq<usize>) -> bool {
    a.len() <= b.len() && a == b.subrange(0, a.len() as int)
}

/// Law (sharing): replacing at `path` leaves the subtree at every
/// path that neither contains nor is contained in `path` exactly as
/// it was — the new tree shares it with the old one.
pub proof fn lemma_replaced_shares_disjoint(
    o: SyntaxNode,
    n: SyntaxNode,
    path: Seq<usize>,
    e: SyntaxElement,
    q: Seq<usize>,
)
    requires
        replaced(o, n, path, e),
        path_valid(o, q),
        q.len() > 0,
        !is_prefix(path, q),
        !is_prefix(q, path),
    ensures
        path_valid(n, q),
        element_at(n, q) == element_at(o, q),
    decreases q.len(),
{
    let i = path[0] as int;
    let j = q[0] as int;
    if j != i {
        assert(n.children@[j] == o.children@[j]);
    } else {
        assert(path.len() >= 2) by {
            if path.len() == 1 {
                assert(path =~= q.subrange(0, 1));
                assert(is_prefix(path, q));
            }
        }
        assert(q.len() >= 2) by {
            if q.len() == 1 {
                assert(q =~= path.subrange(0, 1));
                assert(is_prefix(q, path));
            }
        }
        if o.children@[i] is Node && n.children@[i] is Node {
            let om = node_of(o.children@[i]);
            let nm = node_of(n.children@[i]);
            let p2 = path.drop_first();
            let q2 = q.drop_first();
            assert(!is_prefix(p2, q2)) by {
                if is_prefix(p2, q2) {
                    assert(path.len() <= q.len());
                    assert forall|m: int| 0 <= m < path.len() implies path[m] == q.subrange(
                        0,
                        path.len() as int,
                    )[m] by {
                        if m > 0 {
                            assert(path[m] == p2[m - 1]);
                            assert(p2[m - 1] == q2.subrange(0, p2.len() as int)[m - 1]);
                            assert(q2[m - 1] == q[m]);
                        }
                    }
                    assert(path =~= q.subrange(0, path.len() as int));
                    assert(is_prefix(path, q));
                }
            }
            assert(!is_prefix(q2, p2)) by {
                if is_prefix(q2, p2) {
                    assert(q.len() <= path.len());
                    assert forall|m: int| 0 <= m < q.len() implies q[m] == path.subrange(
                        0,
                        q.len() as int,
                    )[m] by {
                        if m > 0 {
                            assert(q[m] == q2[m - 1]);
                            assert(q2[m - 1] == p2.subrange(0, q2.len() as int)[m - 1]);
                            assert(p2[m - 1] == path[m]);
                        }
                    }
                    assert(q =~= path.subrange(0, q.len() as int));
                    assert(is_prefix(q, path));
                }
            }
            lemma_replaced_shares_disjoint(om, nm, p2, e, q2);
        }
    }
}

/// Byte offset of the element at `path` within the text of `n`.
pub open spec fn path_offset(n: SyntaxNode, path: Seq<usize>) -> int
    decreases path.len(),
{
    if path.len() == 0 {
        0
    } else {
        elems_text(n.children@.subrange(0, path[0] as int)).len() + (if path.len() == 1 {
            0
        } else {
            match n.children@[path[0] as int] {
                SyntaxElement::Node(m) => path_offset(*m, path.drop_first()),
                SyntaxElement::Token(_) => 0,
            }
        })
    }
}

/// Law (fidelity): the new tree's text is the old text with exactly
/// the replaced element's byte region swapped for the new element's
/// text — nothing outside that region moves or changes.
pub proof fn lemma_replaced_text(o: SyntaxNode, n: SyntaxNode, path: Seq<usize>, e: SyntaxElement)
    requires
        replaced(o, n, path, e),
        path_valid(o, path),
        path.len() > 0,
    ensures
        0 <= path_offset(o, path),
        path_offset(o, path) + elem_text(element_at(o, path)).len() <= node_text(o).len(),
        node_text(n) == node_text(o).subrange(0, path_offset(o, path)) + elem_text(e)
            + node_text(o).subrange(
            path_offset(o, path) + elem_text(element_at(o, path)).len() as int,
            node_text(o).len() as int,
        ),
    decreases path.len(),
{
    let i = path[0] as int;
    let len = o.children@.len() as int;
    lemma_node_text_is_elems(o);
    lemma_node_text_is_elems(n);
    let opre = o.children@.subrange(0, i);
    let omid = seq![o.children@[i]];
    let osuf = o.children@.subrange(i + 1, len);
    let npre = n.children@.subrange(0, i);
    let nmid = seq![n.children@[i]];
    let nsuf = n.children@.subrange(i + 1, len);
    assert(o.children@ =~= opre + omid + osuf);
    assert(n.children@ =~= npre + nmid + nsuf);
    assert(npre =~= opre);
    assert(nsuf =~= osuf);
    lemma_elems_text_concat(opre + omid, osuf);
    lemma_elems_text_concat(opre, omid);
    lemma_elems_text_concat(opre + nmid, osuf);
    lemma_elems_text_concat(opre, nmid);
    assert(elems_text(omid) == elem_text(o.children@[i])) by {
        reveal_with_fuel(elems_text, 2);
        assert(omid.drop_last() =~= Seq::<SyntaxElement>::empty());
        assert(Seq::<u8>::empty() + elem_text(o.children@[i]) =~= elem_text(o.children@[i]));
    }
    assert(elems_text(nmid) == elem_text(n.children@[i])) by {
        reveal_with_fuel(elems_text, 2);
        assert(nmid.drop_last() =~= Seq::<SyntaxElement>::empty());
        assert(Seq::<u8>::empty() + elem_text(n.children@[i]) =~= elem_text(n.children@[i]));
    }
    let p = elems_text(opre);
    let s = elems_text(osuf);
    let co = elem_text(o.children@[i]);
    let cn = elem_text(n.children@[i]);
    assert(node_text(o) == p + co + s);
    assert(node_text(n) == p + cn + s);
    if path.len() == 1 {
        assert(element_at(o, path) == o.children@[i]);
        assert(path_offset(o, path) == p.len());
        assert(cn == elem_text(e));
        assert(node_text(o).subrange(0, p.len() as int) =~= p);
        assert(node_text(o).subrange(
            p.len() + co.len() as int,
            node_text(o).len() as int,
        ) =~= s);
        assert(node_text(n) =~= node_text(o).subrange(0, path_offset(o, path)) + elem_text(e)
            + node_text(o).subrange(
            path_offset(o, path) + elem_text(element_at(o, path)).len() as int,
            node_text(o).len() as int,
        ));
    } else {
        if o.children@[i] is Node && n.children@[i] is Node {
            let om = node_of(o.children@[i]);
            let nm = node_of(n.children@[i]);
            let p2 = path.drop_first();
            lemma_replaced_text(om, nm, p2, e);
            let off2 = path_offset(om, p2);
            let l2 = elem_text(element_at(om, p2)).len() as int;
            assert(co == node_text(om));
            assert(cn == node_text(nm));
            assert(element_at(o, path) == element_at(om, p2));
            assert(path_offset(o, path) == p.len() + off2);
            let a = node_text(om).subrange(0, off2);
            let b = node_text(om).subrange(off2 + l2, node_text(om).len() as int);
            assert(cn == a + elem_text(e) + b);
            assert(node_text(o).subrange(0, p.len() + off2) =~= p + a);
            assert(node_text(o).subrange(
                p.len() + off2 + l2,
                node_text(o).len() as int,
            ) =~= b + s);
            assert(node_text(n) =~= (p + a) + elem_text(e) + (b + s));
        }
    }
}

/// Replace the element at `path` with `e`, exactly as given: the old
/// element's trivia goes with it. Every subtree off the path is shared
/// with the original, unchanged.
pub fn replace_node_discard_trivia(root: &SyntaxNode, path: &Vec<usize>, e: SyntaxElement) -> (r:
    SyntaxNode)
    requires
        path@.len() > 0,
        path_valid(*root, path@),
    ensures
        replaced(*root, r, path@, e),
{
    proof {
        assert(path@.subrange(0, path@.len() as int) =~= path@);
    }
    replace_at(root, path, 0, e)
}

} // verus!
