//! The flat event stream the parser emits instead of building a tree.
//! Start/Finish pairs must nest like balanced parentheses; the spec
//! functions here state that discipline and the lemmas compose it.

use vstd::prelude::*;
use crate::syntax::SyntaxKind;
use crate::diagnostic::Diagnostic;

verus! {

/// One parser event. `Token` refers into the separate token list by index.
#[derive(Clone, Copy, PartialEq, Eq, Structural, Debug)]
pub enum Event {
    StartNode(SyntaxKind),
    Token(usize),
    FinishNode,
    Error(Diagnostic),
}

/// Contribution of one event to the nesting depth.
pub open spec fn ev_delta(e: Event) -> int {
    match e {
        Event::StartNode(_) => 1,
        Event::FinishNode => -1,
        _ => 0,
    }
}

/// Net nesting depth after a whole event sequence.
pub open spec fn net(es: Seq<Event>) -> int
    decreases es.len(),
{
    if es.len() == 0 {
        0
    } else {
        net(es.drop_last()) + ev_delta(es.last())
    }
}

/// The depth simulation never goes negative on any prefix.
pub open spec fn nonneg_prefixes(es: Seq<Event>) -> bool {
    forall|k: int| 0 <= k <= es.len() ==> net(es.subrange(0, k)) >= 0
}

/// A well-formed fragment: Start/Finish pairs match and nest.
pub open spec fn balanced_frag(es: Seq<Event>) -> bool {
    net(es) == 0 && nonneg_prefixes(es)
}

/// A whole parse's stream: balanced, and every interior prefix stays at
/// depth one or more, so the stream describes exactly one root node.
pub open spec fn single_rooted(es: Seq<Event>) -> bool {
    &&& es.len() >= 2
    &&& balanced_frag(es)
    &&& forall|k: int| 1 <= k < es.len() ==> net(es.subrange(0, k)) >= 1
}

/// The token indices an event sequence mentions, in order.
pub open spec fn evs_toks(es: Seq<Event>) -> Seq<int>
    decreases es.len(),
{
    if es.len() == 0 {
        Seq::empty()
    } else {
        evs_toks(es.drop_last()) + (match es.last() {
            Event::Token(i) => seq![i as int],
            _ => Seq::<int>::empty(),
        })
    }
}

/// The diagnostics carried by the error events of a sequence, in order.
pub open spec fn evs_errors(es: Seq<Event>) -> Seq<Diagnostic>
    decreases es.len(),
{
    if es.len() == 0 {
        Seq::empty()
    } else {
        evs_errors(es.drop_last()) + (match es.last() {
            Event::Error(d) => seq![d],
            _ => Seq::<Diagnostic>::empty(),
        })
    }
}

pub proof fn lemma_evs_errors_concat(a: Seq<Event>, b: Seq<Event>)
    ensures
        evs_errors(a + b) == evs_errors(a) + evs_errors(b),
    decreases b.len(),
{
    if b.len() == 0 {
        assert(a + b =~= a);
        assert(evs_errors(a) + evs_errors(b) =~= evs_errors(a));
    } else {
        lemma_evs_errors_concat(a, b.drop_last());
        assert((a + b).drop_last() =~= a + b.drop_last());
        assert((a + b).last() == b.last());
        assert(evs_errors(a) + evs_errors(b.drop_last()) + (match b.last() {
            Event::Error(d) => seq![d],
            _ => Seq::<Diagnostic>::empty(),
        }) =~= evs_errors(a) + evs_errors(b));
    }
}

/// The integers `a`, `a + 1`, ... up to but not including `b`.
pub open spec fn idx_range(a: int, b: int) -> Seq<int> {
    if b <= a {
        Seq::empty()
    } else {
        Seq::new((b - a) as nat, |i: int| a + i)
    }
}

pub proof fn lemma_idx_range_concat(a: int, b: int, c: int)
    requires
        a <= b <= c,
    ensures
        idx_range(a, b) + idx_range(b, c) == idx_range(a, c),
{
    assert(idx_range(a, b) + idx_range(b, c) =~= idx_range(a, c));
}

pub proof fn lemma_net_concat(a: Seq<Event>, b: Seq<Event>)
    ensures
        net(a + b) == net(a) + net(b),
    decreases b.len(),
{
    if b.len() == 0 {
        assert(a + b =~= a);
    } else {
        lemma_net_concat(a, b.drop_last());
        assert((a + b).drop_last() =~= a + b.drop_last());
        assert((a + b).last() == b.last());
    }
}

pub proof fn lemma_evs_toks_concat(a: Seq<Event>, b: Seq<Event>)
    ensures
        evs_toks(a + b) == evs_toks(a) + evs_toks(b),
    decreases b.len(),
{
    if b.len() == 0 {
        assert(a + b =~= a);
        assert(evs_toks(a) + evs_toks(b) =~= evs_toks(a));
    } else {
        lemma_evs_toks_concat(a, b.drop_last());
        assert((a + b).drop_last() =~= a + b.drop_last());
        assert((a + b).last() == b.last());
        assert(evs_toks(a) + evs_toks(b.drop_last()) + (match b.last() {
            Event::Token(i) => seq![i as int],
            _ => Seq::<int>::empty(),
        }) =~= evs_toks(a) + evs_toks(b));
    }
}

pub proof fn lemma_net_single(e: Event)
    ensures
        net(seq![e]) == ev_delta(e),
        evs_toks(seq![e]) == (match e {
            Event::Token(i) => seq![i as int],
            _ => Seq::<int>::empty(),
        }),
        evs_errors(seq![e]) == (match e {
            Event::Error(d) => seq![d],
            _ => Seq::<Diagnostic>::empty(),
        }),
{
    reveal_with_fuel(net, 2);
    reveal_with_fuel(evs_toks, 2);
    reveal_with_fuel(evs_errors, 2);
    assert(seq![e].drop_last() =~= Seq::<Event>::empty());
    assert(Seq::<Diagnostic>::empty() + (match e {
        Event::Error(d) => seq![d],
        _ => Seq::<Diagnostic>::empty(),
    }) =~= (match e {
        Event::Error(d) => seq![d],
        _ => Seq::<Diagnostic>::empty(),
    }));
    assert(Seq::<int>::empty() + (match e {
        Event::Token(i) => seq![i as int],
        _ => Seq::<int>::empty(),
    }) =~= (match e {
        Event::Token(i) => seq![i as int],
        _ => Seq::<int>::empty(),
    }));
}

pub proof fn lemma_balanced_empty()
    ensures
        balanced_frag(Seq::<Event>::empty()),
{
    assert forall|k: int| 0 <= k <= 0 implies net(Seq::<Event>::empty().subrange(0, k)) >= 0 by {
        assert(Seq::<Event>::empty().subrange(0, k) =~= Seq::<Event>::empty());
    }
}

/// A lone token or error event is a balanced fragment.
pub proof fn lemma_balanced_single(e: Event)
    requires
        ev_delta(e) == 0,
    ensures
        balanced_frag(seq![e]),
{
    let s = seq![e];
    lemma_net_single(e);
    assert(net(s) == 0);
    assert forall|k: int| 0 <= k <= 1 implies net(s.subrange(0, k)) >= 0 by {
        if k == 0 {
            assert(s.subrange(0, 0) =~= Seq::<Event>::empty());
        } else {
            assert(s.subrange(0, 1) =~= s);
        }
    }
}

/// Two balanced fragments in sequence stay balanced.
pub proof fn lemma_balanced_concat(a: Seq<Event>, b: Seq<Event>)
    requires
        balanced_frag(a),
        balanced_frag(b),
    ensures
        balanced_frag(a + b),
{
    lemma_net_concat(a, b);
    assert forall|k: int| 0 <= k <= (a + b).len() implies net((a + b).subrange(0, k)) >= 0 by {
        if k <= a.len() {
            assert((a + b).subrange(0, k) =~= a.subrange(0, k));
        } else {
            assert((a + b).subrange(0, k) =~= a + b.subrange(0, k - a.len()));
            lemma_net_concat(a, b.subrange(0, k - a.len()));
        }
    }
}

/// Wrapping a balanced fragment in one Start/Finish pair yields the
/// stream of a single node: balanced, depth at least one inside.
pub proof fn lemma_balanced_wrap(kind: SyntaxKind, inner: Seq<Event>)
    requires
        balanced_frag(inner),
    ensures
        single_rooted(seq![Event::StartNode(kind)] + inner + seq![Event::FinishNode]),
        balanced_frag(seq![Event::StartNode(kind)] + inner + seq![Event::FinishNode]),
{
    let s0 = seq![Event::StartNode(kind)];
    let s = s0 + inner + seq![Event::FinishNode];
    assert(s.len() == inner.len() + 2);
    lemma_net_concat(s0 + inner, seq![Event::FinishNode]);
    lemma_net_concat(s0, inner);
    lemma_net_single(Event::StartNode(kind));
    lemma_net_single(Event::FinishNode);
    assert(net(s) == 0);
    assert forall|k: int| 1 <= k < s.len() implies net(s.subrange(0, k)) >= 1 by {
        assert(s.subrange(0, k) =~= s0 + inner.subrange(0, k - 1));
        lemma_net_concat(s0, inner.subrange(0, k - 1));
    }
    assert forall|k: int| 0 <= k <= s.len() implies net(s.subrange(0, k)) >= 0 by {
        if k == 0 {
            assert(s.subrange(0, 0) =~= Seq::<Event>::empty());
        } else if k < s.len() {
            assert(net(s.subrange(0, k)) >= 1);
        } else {
            assert(s.subrange(0, k) =~= s);
        }
    }
}

/// Pushing one event extends the depth sum and the token-index list in
/// the obvious way.
pub proof fn lemma_push_ev(es: Seq<Event>, e: Event)
    ensures
        net(es.push(e)) == net(es) + ev_delta(e),
        evs_toks(es.push(e)) == evs_toks(es) + (match e {
            Event::Token(i) => seq![i as int],
            _ => Seq::<int>::empty(),
        }),
        evs_errors(es.push(e)) == evs_errors(es) + (match e {
            Event::Error(d) => seq![d],
            _ => Seq::<Diagnostic>::empty(),
        }),
{
    assert(es.push(e).drop_last() =~= es);
    assert(es.push(e).last() == e);
}

/// Appending the next index extends an index range by one.
pub proof fn lemma_idx_range_push(a: int, b: int)
    requires
        a <= b,
    ensures
        idx_range(a, b) + seq![b] == idx_range(a, b + 1),
{
    assert(idx_range(a, b) + seq![b] =~= idx_range(a, b + 1));
}

/// Build the event fragment of one node around the fragment of its
/// contents.
pub fn wrap_node(kind: SyntaxKind, inner: Vec<Event>) -> (out: Vec<Event>)
    ensures
        out@ == seq![Event::StartNode(kind)] + inner@ + seq![Event::FinishNode],
        evs_toks(out@) == evs_toks(inner@),
        evs_errors(out@) == evs_errors(inner@),
        balanced_frag(inner@) ==> balanced_frag(out@) && single_rooted(out@),
{
    let mut out: Vec<Event> = Vec::new();
    out.push(Event::StartNode(kind));
    let mut inner_moved = inner;
    let ghost inner_view = inner_moved@;
    out.append(&mut inner_moved);
    proof {
        assert(out@ =~= seq![Event::StartNode(kind)] + inner_view);
    }
    out.push(Event::FinishNode);
    proof {
        assert(out@ =~= seq![Event::StartNode(kind)] + inner_view + seq![Event::FinishNode]);
        lemma_evs_toks_concat(seq![Event::StartNode(kind)] + inner_view, seq![Event::FinishNode]);
        lemma_evs_toks_concat(seq![Event::StartNode(kind)], inner_view);
        lemma_evs_errors_concat(seq![Event::StartNode(kind)] + inner_view, seq![Event::FinishNode]);
        lemma_evs_errors_concat(seq![Event::StartNode(kind)], inner_view);
        lemma_net_single(Event::StartNode(kind));
        lemma_net_single(Event::FinishNode);
        assert(evs_toks(out@) =~= evs_toks(inner_view));
        assert(evs_errors(out@) =~= evs_errors(inner_view));
        if balanced_frag(inner_view) {
            lemma_balanced_wrap(kind, inner_view);
        }
    }
    out
}

/// Append a production's fragment to the one under construction.
pub fn append_frag(dst: &mut Vec<Event>, src: Vec<Event>)
    ensures
        final(dst)@ == old(dst)@ + src@,
        balanced_frag(old(dst)@) && balanced_frag(src@) ==> balanced_frag(final(dst)@),
        evs_toks(final(dst)@) == evs_toks(old(dst)@) + evs_toks(src@),
        evs_errors(final(dst)@) == evs_errors(old(dst)@) + evs_errors(src@),
{
    let ghost d0 = dst@;
    let ghost s0 = src@;
    let mut s = src;
    dst.append(&mut s);
    proof {
        lemma_evs_toks_concat(d0, s0);
        lemma_evs_errors_concat(d0, s0);
        if balanced_frag(d0) && balanced_frag(s0) {
            lemma_balanced_concat(d0, s0);
        }
    }
}

/// The mechanical stack-depth simulation over a finished event list:
/// this is the one place the nesting invariant is checked at run time.
pub fn is_balanced(events: &Vec<Event>) -> (r: bool)
    ensures
        r == balanced_frag(events@),
{
    let mut depth: usize = 0;
    let mut i: usize = 0;
    while i < events.len()
        invariant
            0 <= i <= events.len(),
            depth <= i,
            depth as int == net(events@.subrange(0, i as int)),
            forall|k: int| 0 <= k <= i ==> net(events@.subrange(0, k)) >= 0,
        decreases events.len() - i,
    {
        proof {
            assert(events@.subrange(0, i + 1).drop_last() =~= events@.subrange(0, i as int));
            assert(events@.subrange(0, i + 1).last() == events@[i as int]);
        }
        match events[i] {
            Event::StartNode(_) => {
                depth = depth + 1;
            },
            Event::FinishNode => {
                if depth == 0 {
                    proof {
                        assert(net(events@.subrange(0, i + 1)) < 0);
                    }
                    return false;
                }
                depth = depth - 1;
            },
            _ => {},
        }
        i = i + 1;
    }
    proof {
        assert(events@.subrange(0, events@.len() as int) =~= events@);
    }
    depth == 0
}

} // verus!
