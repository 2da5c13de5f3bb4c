//! The tree sink: replays a finished event stream over the token list
//! and materializes the immutable tree. It knows no grammar; it only
//! enforces the nesting discipline, which the parser's contracts
//! discharge statically here (`is_balanced` in the event module is the
//! run-time form of the same check).

use vstd::prelude::*;
use crate::syntax::{SyntaxKind, Token, tokens_text, token_full_text};
use crate::tree::{
    SyntaxNode, SyntaxElement, node_text, elems_text, lemma_node_text_is_elems,
};
use crate::event::{Event, single_rooted, net, evs_toks, idx_range, lemma_evs_toks_concat};
use std::rc::Rc;

verus! {

/// One node under construction.
struct Frame {
    kind: SyntaxKind,
    children: Vec<SyntaxElement>,
}

/// Concatenated text held by a stack of in-progress frames, bottom up.
spec fn frames_text(fs: Seq<Frame>) -> Seq<u8>
    decreases fs.len(),
{
    if fs.len() == 0 {
        Seq::empty()
    } else {
        frames_text(fs.drop_last()) + elems_text(fs.last().children@)
    }
}

/// The kind a `StartNode` event carries.
pub open spec fn start_kind_of(e: Event) -> SyntaxKind {
    e->StartNode_0
}

/// Replay a single-rooted event stream over its token list. The tree's
/// text is exactly the token list's text: the sink loses nothing.
pub fn build_tree(events: &Vec<Event>, tokens: Vec<Token>) -> (root: SyntaxNode)
    requires
        single_rooted(events@),
        evs_toks(events@) == idx_range(0, tokens@.len() as int),
    ensures
        node_text(root) == tokens_text(tokens@),
        root.kind == start_kind_of(events@[0]),
{
    let ghost all_toks = tokens@;
    let ghost es = events@;
    let ghost len = es.len() as int;
    let ghost n = all_toks.len() as int;
    let mut toks = tokens;
    let mut stack: Vec<Frame> = Vec::new();
    let mut root: Option<SyntaxNode> = None;
    let ghost mut c: int = 0;
    let mut i: usize = 0;
    proof {
        assert(es.subrange(0, 0) =~= Seq::<Event>::empty());
        assert(all_toks.subrange(0, 0) =~= Seq::<Token>::empty());
        assert(all_toks.subrange(0, n) =~= all_toks);
    }
    while i < events.len()
        invariant
            es == events@,
            len == es.len(),
            n == all_toks.len(),
            single_rooted(es),
            evs_toks(es) == idx_range(0, n),
            0 <= i <= len,
            0 <= c <= n,
            evs_toks(es.subrange(0, i as int)) == idx_range(0, c),
            toks@ == all_toks.subrange(c, n),
            i < len ==> root is None && stack@.len() == net(es.subrange(0, i as int))
                && frames_text(stack@) == tokens_text(all_toks.subrange(0, c)),
            1 <= i < len ==> stack@.len() >= 1 && stack@[0].kind == start_kind_of(es[0]),
            i == len ==> (root matches Some(nd) && node_text(nd) == tokens_text(all_toks)
                && nd.kind == start_kind_of(es[0])),
        decreases len - i,
    {
        let ghost pre = es.subrange(0, i as int);
        let ghost post = es.subrange(0, i + 1);
        proof {
            assert(post.drop_last() =~= pre);
            assert(post.last() == es[i as int]);
            // The next prefix's token list is still a prefix of the range.
            assert(es =~= post + es.subrange(i + 1, len));
            lemma_evs_toks_concat(post, es.subrange(i + 1, len));
            // Interior depth stays at least one.
            if i + 1 < len {
                assert(net(post) >= 1);
            } else {
                assert(post =~= es);
                assert(net(post) == 0);
            }
        }
        match events[i] {
            Event::StartNode(k) => {
                let ghost stack0 = stack@;
                stack.push(Frame { kind: k, children: Vec::new() });
                proof {
                    assert(stack@.drop_last() =~= stack0);
                    assert(elems_text(stack@.last().children@) =~= Seq::<u8>::empty());
                    assert(frames_text(stack@) =~= frames_text(stack0));
                    if i == 0 {
                        assert(stack@[0].kind == start_kind_of(es[0]));
                    } else {
                        assert(stack@[0] == stack0[0]);
                    }
                }
            },
            Event::Token(idx) => {
                proof {
                    // This token event's index is exactly `c`, and in range.
                    assert(evs_toks(post) =~= evs_toks(pre) + seq![idx as int]);
                    assert(evs_toks(post) == idx_range(0, n).subrange(0, c + 1)) by {
                        assert(evs_toks(post) + evs_toks(es.subrange(i + 1, len)) == idx_range(
                            0,
                            n,
                        ));
                        assert(evs_toks(post).len() == c + 1);
                        assert(evs_toks(post) =~= idx_range(0, n).subrange(0, c + 1));
                    }
                    assert(c + 1 <= n);
                    assert(idx_range(0, n).subrange(0, c + 1) =~= idx_range(0, c + 1));
                    assert(idx_range(0, c + 1)[c] == c);
                    assert(idx as int == c);
                    // The stack is not empty: depth is positive here.
                    assert(net(post) == net(pre));
                    assert(net(pre) >= 1) by {
                        if i == 0 {
                            assert(pre =~= Seq::<Event>::empty());
                            assert(net(post) >= 1);
                        }
                    }
                }
                let tok = toks.remove(0);
                proof {
                    assert(all_toks.subrange(c, n).remove(0) =~= all_toks.subrange(c + 1, n));
                    assert(all_toks.subrange(c, n)[0] == all_toks[c]);
                }
                let mut f = stack.pop().unwrap();
                let ghost f0 = f;
                let ghost stack0 = stack@;
                let el = SyntaxElement::Token(Rc::new(tok));
                f.children.push(el);
                stack.push(f);
                proof {
                    assert(f.children@.drop_last() =~= f0.children@);
                    assert(elems_text(f.children@) == elems_text(f0.children@) + token_full_text(
                        all_toks[c],
                    ));
                    assert(stack@.drop_last() =~= stack0);
                    assert(frames_text(stack@) =~= frames_text(stack0) + elems_text(
                        f.children@,
                    ));
                    assert(all_toks.subrange(0, c + 1).drop_last() =~= all_toks.subrange(0, c));
                    assert(all_toks.subrange(0, c + 1).last() == all_toks[c]);
                    assert(frames_text(stack@) =~= tokens_text(all_toks.subrange(0, c + 1)));
                    if stack0.len() > 0 {
                        assert(stack@[0] == stack0[0]);
                    }
                    c = c + 1;
                }
            },
            Event::FinishNode => {
                proof {
                    assert(net(post) == net(pre) - 1);
                    assert(net(pre) >= 1);
                }
                let ghost stack_full = stack@;
                let f = stack.pop().unwrap();
                let ghost f0 = f;
                let ghost stack1 = stack@;
                let nd = SyntaxNode { kind: f.kind, children: f.children };
                proof {
                    lemma_node_text_is_elems(nd);
                    assert(stack_full.drop_last() =~= stack1);
                    assert(frames_text(stack_full) == frames_text(stack1) + elems_text(
                        f0.children@,
                    ));
                }
                if stack.len() == 0 {
                    proof {
                        assert(stack1.len() == 0);
                        assert(net(post) == net(pre) - 1 == 0);
                        assert(i + 1 == len) by {
                            if i + 1 < len {
                                assert(net(post) >= 1);
                            }
                        }
                        assert(evs_toks(post) =~= evs_toks(pre));
                        assert(post =~= es);
                        assert(idx_range(0, c) == idx_range(0, n));
                        assert(idx_range(0, n).len() == n);
                        assert(idx_range(0, c).len() == if c <= 0 { 0 } else { c });
                        assert(c == n);
                        assert(frames_text(stack1) =~= Seq::<u8>::empty());
                        assert(node_text(nd) == tokens_text(all_toks.subrange(0, c)));
                        assert(all_toks.subrange(0, n) =~= all_toks);
                        assert(nd.kind == stack_full[0].kind);
                    }
                    root = Some(nd);
                } else {
                    let mut g = stack.pop().unwrap();
                    let ghost g0 = g;
                    let ghost stack0 = stack@;
                    let el = SyntaxElement::Node(Rc::new(nd));
                    g.children.push(el);
                    stack.push(g);
                    proof {
                        assert(g.children@.drop_last() =~= g0.children@);
                        assert(elems_text(g.children@) == elems_text(g0.children@) + node_text(
                            nd,
                        ));
                        assert(stack@.drop_last() =~= stack0);
                        assert(frames_text(stack@) =~= frames_text(stack0) + elems_text(
                            g.children@,
                        ));
                        assert(frames_text(stack@) =~= tokens_text(all_toks.subrange(0, c)));
                        if stack0.len() > 0 {
                            assert(stack@[0] == stack0[0]);
                        } else {
                            assert(stack@[0] == g);
                        }
                        assert(net(post) >= 1);
                        assert(i + 1 < len);
                    }
                }
            },
            Event::Error(_) => {
                proof {
                    assert(net(post) == net(pre));
                    assert(evs_toks(post) =~= evs_toks(pre));
                    if i + 1 == len {
                        assert(i >= 1);
                        assert(net(pre) >= 1);
                        assert(net(post) == 0);
                        assert(false);
                    }
                }
            },
        }
        i = i + 1;
    }
    root.unwrap()
}

} // verus!
