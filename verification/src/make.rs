//! Factories for synthesized syntax: fresh tokens with no trivia, and
//! nodes built around existing (shared) subtrees. Rewrites use these to
//! build replacements.

use vstd::prelude::*;
use crate::syntax::{
    SyntaxKind, Token, TriviaPiece, token_full_text, trivia_concat, clone_bytes,
    clone_trivia_list,
};
use crate::tree::{
    SyntaxNode, SyntaxElement, node_text, elem_text, elems_text, token_of, node_of,
    clone_rc_token, clone_element, lemma_node_text_is_elems, lemma_elems_text_concat,
    elem_has_token, node_has_token, lead_text, trail_text, children_lead_text_from,
    children_trail_text_upto, element_has_token, lemma_token_free_elems,
};
use std::rc::Rc;

verus! {

broadcast use vstd::std_specs::vec::axiom_vec_index_decreases;

/// The text of a one-element list is that element's text.
proof fn lemma_elems_single(x: SyntaxElement)
    ensures
        elems_text(seq![x]) == elem_text(x),
{
    reveal_with_fuel(elems_text, 2);
    assert(seq![x].drop_last() =~= Seq::<SyntaxElement>::empty());
    assert(Seq::<u8>::empty() + elem_text(x) =~= elem_text(x));
}

/// Copy a child list element by element (cheap handle copies).
fn clone_elements(v: &Vec<SyntaxElement>) -> (r: Vec<SyntaxElement>)
    ensures
        r@ == v@,
{
    let mut out: Vec<SyntaxElement> = Vec::new();
    let mut i: usize = 0;
    while i < v.len()
        invariant
            0 <= i <= v@.len(),
            out@ =~= v@.subrange(0, i as int),
        decreases v@.len() - i,
    {
        out.push(clone_element(&v[i]));
        proof {
            assert(out@ =~= v@.subrange(0, i + 1));
        }
        i = i + 1;
    }
    proof {
        assert(v@.subrange(0, v@.len() as int) =~= v@);
    }
    out
}

/// Rebuild the element with its first token's leading trivia and its
/// last token's trailing trivia taken out (as directed by the flags),
/// returning the stripped element and what was taken. One pass handles
/// both ends, so the returned pieces anchor exactly to the ends of the
/// element's text.
fn take_outer(e: &SyntaxElement, dl: bool, dt: bool) -> (r: (
    SyntaxElement,
    Vec<TriviaPiece>,
    Vec<TriviaPiece>,
))
    requires
        elem_has_token(*e),
    ensures
        trivia_concat(r.1@) == if dl {
            lead_text(*e)
        } else {
            Seq::<u8>::empty()
        },
        trivia_concat(r.2@) == if dt {
            trail_text(*e)
        } else {
            Seq::<u8>::empty()
        },
        trivia_concat(r.1@).len() + trivia_concat(r.2@).len() <= elem_text(*e).len(),
        trivia_concat(r.1@) == elem_text(*e).subrange(0, trivia_concat(r.1@).len() as int),
        trivia_concat(r.2@) == elem_text(*e).subrange(
            elem_text(*e).len() - trivia_concat(r.2@).len(),
            elem_text(*e).len() as int,
        ),
        elem_text(r.0) == elem_text(*e).subrange(
            trivia_concat(r.1@).len() as int,
            elem_text(*e).len() - trivia_concat(r.2@).len(),
        ),
        (*e) is Node ==> r.0 is Node && node_of(r.0).kind == node_of(*e).kind,
        (*e) is Token ==> r.0 is Token && token_of(r.0).kind == token_of(*e).kind,
    decreases *e,
{
    match e {
        SyntaxElement::Token(t) => {
            let lead = if dl {
                clone_trivia_list(&t.leading)
            } else {
                Vec::new()
            };
            let trail = if dt {
                clone_trivia_list(&t.trailing)
            } else {
                Vec::new()
            };
            let keep_lead = if dl {
                Vec::new()
            } else {
                clone_trivia_list(&t.leading)
            };
            let keep_trail = if dt {
                Vec::new()
            } else {
                clone_trivia_list(&t.trailing)
            };
            let nt = Token {
                kind: t.kind,
                text: clone_bytes(&t.text),
                leading: keep_lead,
                trailing: keep_trail,
            };
            let out = SyntaxElement::Token(Rc::new(nt));
            proof {
                let l0 = trivia_concat(t.leading@);
                let t0 = t.text@;
                let r0 = trivia_concat(t.trailing@);
                let full = l0 + t0 + r0;
                assert(elem_text(*e) == full);
                assert(trivia_concat(Seq::<TriviaPiece>::empty()) =~= Seq::<u8>::empty());
                if dl {
                    assert(l0 =~= full.subrange(0, l0.len() as int));
                } else {
                    assert(Seq::<u8>::empty() =~= full.subrange(0, 0));
                }
                if dt {
                    assert(r0 =~= full.subrange(full.len() - r0.len(), full.len() as int));
                } else {
                    assert(Seq::<u8>::empty() =~= full.subrange(
                        full.len() as int,
                        full.len() as int,
                    ));
                }
                if dl {
                    if dt {
                        assert(elem_text(out) =~= full.subrange(
                            l0.len() as int,
                            full.len() - r0.len(),
                        ));
                    } else {
                        assert(elem_text(out) =~= full.subrange(
                            l0.len() as int,
                            full.len() as int,
                        ));
                    }
                } else {
                    if dt {
                        assert(elem_text(out) =~= full.subrange(0, full.len() - r0.len()));
                    } else {
                        assert(elem_text(out) =~= full.subrange(0, full.len() as int));
                    }
                }
            }
            (out, lead, trail)
        },
        SyntaxElement::Node(n) => {
            proof {
                assert(node_has_token(**n));
                assert(decreases_to!(*e => e->Node_0));
                assert(e->Node_0 == *n);
            }
            let (nn, lead, trail) = take_outer_node(n, dl, dt);
            let out = SyntaxElement::Node(Rc::new(nn));
            proof {
                assert(elem_text(*e) == node_text(**n));
                assert(elem_text(out) == node_text(nn));
                assert(lead_text(*e) == children_lead_text_from(**n, 0));
                assert(trail_text(*e) == children_trail_text_upto(
                    **n,
                    n.children@.len() as int,
                ));
            }
            (out, lead, trail)
        },
    }
}

/// The node-level worker behind `take_outer`.
#[verifier::rlimit(100)]
#[verifier::spinoff_prover]
fn take_outer_node(n: &SyntaxNode, dl: bool, dt: bool) -> (r: (
    SyntaxNode,
    Vec<TriviaPiece>,
    Vec<TriviaPiece>,
))
    requires
        node_has_token(*n),
    ensures
        trivia_concat(r.1@) == if dl {
            children_lead_text_from(*n, 0)
        } else {
            Seq::<u8>::empty()
        },
        trivia_concat(r.2@) == if dt {
            children_trail_text_upto(*n, n.children@.len() as int)
        } else {
            Seq::<u8>::empty()
        },
        trivia_concat(r.1@).len() + trivia_concat(r.2@).len() <= node_text(*n).len(),
        trivia_concat(r.1@) == node_text(*n).subrange(0, trivia_concat(r.1@).len() as int),
        trivia_concat(r.2@) == node_text(*n).subrange(
            node_text(*n).len() - trivia_concat(r.2@).len(),
            node_text(*n).len() as int,
        ),
        node_text(r.0) == node_text(*n).subrange(
            trivia_concat(r.1@).len() as int,
            node_text(*n).len() - trivia_concat(r.2@).len(),
        ),
        r.0.kind == n.kind,
    decreases *n,
{
    // First token-bearing child.
    let mut jf: usize = 0;
    loop
        invariant_except_break
            node_has_token(*n),
            0 <= jf <= n.children@.len(),
            forall|m: int| 0 <= m < jf ==> !elem_has_token(n.children@[m]),
            children_lead_text_from(*n, 0) == children_lead_text_from(*n, jf as int),
        ensures
            0 <= jf < n.children@.len(),
            elem_has_token(n.children@[jf as int]),
            forall|m: int| 0 <= m < jf ==> !elem_has_token(n.children@[m]),
            children_lead_text_from(*n, 0) == children_lead_text_from(*n, jf as int),
        decreases n.children@.len() - jf,
    {
        if jf >= n.children.len() {
            proof {
                assert(!node_has_token(*n));
                assert(false);
            }
            break ;
        }
        if element_has_token(&n.children[jf]) {
            break ;
        }
        jf = jf + 1;
    }
    // Last token-bearing child.
    let mut k: usize = n.children.len();
    let mut jl: usize = 0;
    loop
        invariant_except_break
            jf < k <= n.children@.len(),
            jf < n.children@.len(),
            elem_has_token(n.children@[jf as int]),
            forall|m: int| k <= m < n.children@.len() ==> !elem_has_token(n.children@[m]),
            children_trail_text_upto(*n, n.children@.len() as int) == children_trail_text_upto(
                *n,
                k as int,
            ),
        ensures
            jf <= jl < n.children@.len(),
            elem_has_token(n.children@[jl as int]),
            forall|m: int| jl < m < n.children@.len() ==> !elem_has_token(n.children@[m]),
            children_trail_text_upto(*n, n.children@.len() as int) == trail_text(
                n.children@[jl as int],
            ),
        decreases k,
    {
        if element_has_token(&n.children[k - 1]) {
            jl = k - 1;
            break ;
        }
        k = k - 1;
    }
    proof {
        assert(decreases_to!(*n => n.children[jf as int]));
        assert(decreases_to!(*n => n.children[jl as int]));
    }
    let ghost s = n.children@;
    let ghost len = s.len() as int;
    let ghost pre = s.subrange(0, jf as int);
    let ghost post = s.subrange(jl + 1, len);
    proof {
        lemma_node_text_is_elems(*n);
        assert(forall|m: int| 0 <= m < pre.len() ==> !elem_has_token(pre[m]));
        assert(forall|m: int| 0 <= m < post.len() ==> !elem_has_token(post[m]));
        lemma_token_free_elems(pre);
        lemma_token_free_elems(post);
    }
    if jf == jl {
        // A single child carries every token.
        let (c, lead, trail) = take_outer(&n.children[jf], dl, dt);
        let mut kids = clone_elements(&n.children);
        let ghost c0 = c;
        proof {
            vstd::std_specs::vec::axiom_spec_len(&kids);
        }
        kids[jf] = c;
        let nn = SyntaxNode { kind: n.kind, children: kids };
        proof {
            let mid = seq![s[jf as int]];
            assert(s =~= pre + mid + post);
            lemma_elems_text_concat(pre + mid, post);
            lemma_elems_text_concat(pre, mid);
            lemma_elems_single(s[jf as int]);
            let fx = elem_text(s[jf as int]);
            assert(node_text(*n) =~= fx);
            lemma_node_text_is_elems(nn);
            let mid2 = seq![c0];
            assert(nn.children@ =~= pre + mid2 + post);
            lemma_elems_text_concat(pre + mid2, post);
            lemma_elems_text_concat(pre, mid2);
            lemma_elems_single(c0);
            assert(node_text(nn) =~= elem_text(c0));
            assert(children_lead_text_from(*n, jf as int) == lead_text(s[jf as int]));
        }
        (nn, lead, trail)
    } else {
        // Tokens in two or more children: strip the first and the
        // last separately.
        let (c1, lead, _discard_t) = take_outer(&n.children[jf], dl, false);
        let (c2, _discard_l, trail) = take_outer(&n.children[jl], false, dt);
        let mut kids = clone_elements(&n.children);
        let ghost c1g = c1;
        let ghost c2g = c2;
        proof {
            vstd::std_specs::vec::axiom_spec_len(&kids);
        }
        kids[jf] = c1;
        proof {
            vstd::std_specs::vec::axiom_spec_len(&kids);
        }
        kids[jl] = c2;
        let nn = SyntaxNode { kind: n.kind, children: kids };
        proof {
            let midf = seq![s[jf as int]];
            let midl = seq![s[jl as int]];
            let middle = s.subrange(jf + 1, jl as int);
            assert(s =~= pre + midf + middle + midl + post);
            lemma_elems_text_concat(pre + midf + middle + midl, post);
            lemma_elems_text_concat(pre + midf + middle, midl);
            lemma_elems_text_concat(pre + midf, middle);
            lemma_elems_text_concat(pre, midf);
            lemma_elems_single(s[jf as int]);
            lemma_elems_single(s[jl as int]);
            let fx = elem_text(s[jf as int]);
            let mx = elems_text(middle);
            let lx = elem_text(s[jl as int]);
            assert(node_text(*n) =~= fx + mx + lx);
            lemma_node_text_is_elems(nn);
            assert(nn.children@ =~= pre + seq![c1g] + middle + seq![c2g] + post);
            lemma_elems_text_concat(pre + seq![c1g] + middle + seq![c2g], post);
            lemma_elems_text_concat(pre + seq![c1g] + middle, seq![c2g]);
            lemma_elems_text_concat(pre + seq![c1g], middle);
            lemma_elems_text_concat(pre, seq![c1g]);
            lemma_elems_single(c1g);
            lemma_elems_single(c2g);
            assert(node_text(nn) =~= elem_text(c1g) + mx + elem_text(c2g));
            assert(children_lead_text_from(*n, jf as int) == lead_text(s[jf as int]));
            let llen = trivia_concat(lead@).len() as int;
            let tlen = trivia_concat(trail@).len() as int;
            assert(elem_text(c1g) =~= fx.subrange(llen, fx.len() as int));
            assert(elem_text(c2g) =~= lx.subrange(0, lx.len() - tlen));
            assert(trivia_concat(lead@) =~= node_text(*n).subrange(0, llen));
            assert(trivia_concat(trail@) =~= node_text(*n).subrange(
                node_text(*n).len() - tlen,
                node_text(*n).len() as int,
            ));
            assert(node_text(nn) =~= node_text(*n).subrange(llen, node_text(*n).len() - tlen));
        }
        (nn, lead, trail)
    }
}

/// A token with the given kind and text and no trivia at all.
pub open spec fn plain_token(t: Token, kind: SyntaxKind, text: Seq<u8>) -> bool {
    t.kind == kind && t.text@ == text && t.leading@.len() == 0 && t.trailing@.len() == 0
}

/// A fresh `(` token.
pub fn lparen_token() -> (t: Token)
    ensures
        plain_token(t, SyntaxKind::LParen, seq![40u8]),
        token_full_text(t) == seq![40u8],
{
    let mut text: Vec<u8> = Vec::new();
    text.push(40);
    let t = Token { kind: SyntaxKind::LParen, text, leading: Vec::new(), trailing: Vec::new() };
    proof {
        assert(t.text@ =~= seq![40u8]);
        assert(trivia_concat(t.leading@) =~= Seq::<u8>::empty());
        assert(trivia_concat(t.trailing@) =~= Seq::<u8>::empty());
        assert(token_full_text(t) =~= seq![40u8]);
    }
    t
}

/// A fresh `)` token.
pub fn rparen_token() -> (t: Token)
    ensures
        plain_token(t, SyntaxKind::RParen, seq![41u8]),
        token_full_text(t) == seq![41u8],
{
    let mut text: Vec<u8> = Vec::new();
    text.push(41);
    let t = Token { kind: SyntaxKind::RParen, text, leading: Vec::new(), trailing: Vec::new() };
    proof {
        assert(t.text@ =~= seq![41u8]);
        assert(trivia_concat(t.leading@) =~= Seq::<u8>::empty());
        assert(trivia_concat(t.trailing@) =~= Seq::<u8>::empty());
        assert(token_full_text(t) =~= seq![41u8]);
    }
    t
}

/// Wrap an expression in fresh parentheses, keeping its outer trivia
/// outside them: the expression's leading trivia moves onto the `(`
/// token and its trailing trivia onto the `)` token, so comments and
/// spacing stay in place around the new parentheses.
pub fn parenthesized_keeping_trivia(e: &SyntaxElement) -> (n: SyntaxNode)
    requires
        elem_has_token(*e),
    ensures
        n.kind == SyntaxKind::ParenExpr,
        n.children@.len() == 3,
        n.children@[0] is Token,
        token_of(n.children@[0]).kind == SyntaxKind::LParen,
        token_of(n.children@[0]).text@ == seq![40u8],
        trivia_concat(token_of(n.children@[0]).leading@) == lead_text(*e),
        token_of(n.children@[0]).trailing@.len() == 0,
        n.children@[2] is Token,
        token_of(n.children@[2]).kind == SyntaxKind::RParen,
        token_of(n.children@[2]).text@ == seq![41u8],
        token_of(n.children@[2]).leading@.len() == 0,
        trivia_concat(token_of(n.children@[2]).trailing@) == trail_text(*e),
        (*e) is Node ==> n.children@[1] is Node && node_of(n.children@[1]).kind == node_of(
            *e,
        ).kind,
        lead_text(*e).len() + trail_text(*e).len() <= elem_text(*e).len(),
        lead_text(*e) == elem_text(*e).subrange(0, lead_text(*e).len() as int),
        trail_text(*e) == elem_text(*e).subrange(
            elem_text(*e).len() - trail_text(*e).len(),
            elem_text(*e).len() as int,
        ),
        elem_text(n.children@[1]) == elem_text(*e).subrange(
            lead_text(*e).len() as int,
            elem_text(*e).len() - trail_text(*e).len(),
        ),
        node_text(n) == lead_text(*e) + seq![40u8] + elem_text(*e).subrange(
            lead_text(*e).len() as int,
            elem_text(*e).len() - trail_text(*e).len(),
        ) + seq![41u8] + trail_text(*e),
{
    let (core, lead, trail) = take_outer(e, true, true);
    let mut lp_text: Vec<u8> = Vec::new();
    lp_text.push(40);
    let lp = Token { kind: SyntaxKind::LParen, text: lp_text, leading: lead, trailing: Vec::new() };
    let mut rp_text: Vec<u8> = Vec::new();
    rp_text.push(41);
    let rp = Token { kind: SyntaxKind::RParen, text: rp_text, leading: Vec::new(), trailing: trail };
    let ghost lpg = lp;
    let ghost rpg = rp;
    let ghost coreg = core;
    let mut children: Vec<SyntaxElement> = Vec::new();
    children.push(SyntaxElement::Token(Rc::new(lp)));
    children.push(core);
    children.push(SyntaxElement::Token(Rc::new(rp)));
    let n = SyntaxNode { kind: SyntaxKind::ParenExpr, children };
    proof {
        lemma_node_text_is_elems(n);
        let s = n.children@;
        assert(s.len() == 3);
        assert(lpg.text@ =~= seq![40u8]);
        assert(rpg.text@ =~= seq![41u8]);
        assert(trivia_concat(lpg.trailing@) =~= Seq::<u8>::empty());
        assert(trivia_concat(rpg.leading@) =~= Seq::<u8>::empty());
        assert(elem_text(s[0]) =~= trivia_concat(lpg.leading@) + seq![40u8]);
        assert(elem_text(s[1]) == elem_text(coreg));
        assert(elem_text(s[2]) =~= seq![41u8] + trivia_concat(rpg.trailing@));
        reveal_with_fuel(elems_text, 4);
        assert(s.drop_last() =~= seq![s[0], s[1]]);
        assert(seq![s[0], s[1]].drop_last() =~= seq![s[0]]);
        assert(seq![s[0]].drop_last() =~= Seq::<SyntaxElement>::empty());
        assert(node_text(n) =~= lead_text(*e) + seq![40u8] + elem_text(coreg) + seq![41u8]
            + trail_text(*e));
    }
    n
}

/// Wrap an expression in fresh parentheses.
pub fn parenthesized(inner: SyntaxElement) -> (n: SyntaxNode)
    ensures
        n.kind == SyntaxKind::ParenExpr,
        n.children@.len() == 3,
        n.children@[0] is Token && plain_token(
            token_of(n.children@[0]),
            SyntaxKind::LParen,
            seq![40u8],
        ),
        n.children@[1] == inner,
        n.children@[2] is Token && plain_token(
            token_of(n.children@[2]),
            SyntaxKind::RParen,
            seq![41u8],
        ),
        node_text(n) == seq![40u8] + elem_text(inner) + seq![41u8],
{
    let lp = lparen_token();
    let rp = rparen_token();
    let ghost inner0 = inner;
    let mut children: Vec<SyntaxElement> = Vec::new();
    children.push(SyntaxElement::Token(Rc::new(lp)));
    children.push(inner);
    children.push(SyntaxElement::Token(Rc::new(rp)));
    let n = SyntaxNode { kind: SyntaxKind::ParenExpr, children };
    proof {
        lemma_node_text_is_elems(n);
        let s = n.children@;
        assert(s.len() == 3);
        assert(elem_text(s[0]) == seq![40u8]);
        assert(elem_text(s[1]) == elem_text(inner0));
        assert(elem_text(s[2]) == seq![41u8]);
        reveal_with_fuel(elems_text, 4);
        assert(s.drop_last() =~= seq![s[0], s[1]]);
        assert(seq![s[0], s[1]].drop_last() =~= seq![s[0]]);
        assert(seq![s[0]].drop_last() =~= Seq::<SyntaxElement>::empty());
        assert(elems_text(s) =~= seq![40u8] + elem_text(inner0) + seq![41u8]);
    }
    n
}

/// A unary expression from an existing operator token (trivia and all)
/// and an operand.
pub fn js_unary_expression(op: &Rc<Token>, argument: SyntaxElement) -> (n: SyntaxNode)
    ensures
        n.kind == SyntaxKind::UnaryExpr,
        n.children@.len() == 2,
        n.children@[0] is Token && token_of(n.children@[0]) == **op,
        n.children@[1] == argument,
        node_text(n) == token_full_text(**op) + elem_text(argument),
{
    let ghost arg0 = argument;
    let mut children: Vec<SyntaxElement> = Vec::new();
    children.push(SyntaxElement::Token(clone_rc_token(op)));
    children.push(argument);
    let n = SyntaxNode { kind: SyntaxKind::UnaryExpr, children };
    proof {
        lemma_node_text_is_elems(n);
        let s = n.children@;
        assert(s.len() == 2);
        assert(elem_text(s[0]) == token_full_text(**op));
        assert(elem_text(s[1]) == elem_text(arg0));
        reveal_with_fuel(elems_text, 3);
        assert(s.drop_last() =~= seq![s[0]]);
        assert(seq![s[0]].drop_last() =~= Seq::<SyntaxElement>::empty());
        assert(elems_text(s) =~= token_full_text(**op) + elem_text(arg0));
    }
    n
}

} // verus!
