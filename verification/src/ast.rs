//! The typed view layer: zero-cost wrappers over untyped nodes. A
//! wrapper is just a validated handle — constructing one checks the
//! node's kind tag and yields absence on a mismatch, never a
//! mismatched-kind read. Accessors locate children by fixed structural
//! rules and return absence for children that error recovery left out.

use vstd::prelude::*;
use crate::syntax::{SyntaxKind, Token};
use crate::tree::{SyntaxNode, SyntaxElement, clone_rc_node, clone_rc_token};
use std::rc::Rc;

verus! {

/// The `i`th node-valued child (token children don't count).
pub open spec fn spec_nth_node_child(s: Seq<SyntaxElement>, i: int) -> Option<Rc<SyntaxNode>>
    decreases s.len(),
{
    if s.len() == 0 {
        None
    } else {
        match s[0] {
            SyntaxElement::Node(m) => if i == 0 {
                Some(m)
            } else {
                spec_nth_node_child(s.drop_first(), i - 1)
            },
            SyntaxElement::Token(_) => spec_nth_node_child(s.drop_first(), i),
        }
    }
}

/// The first token-valued child.
pub open spec fn spec_first_token_child(s: Seq<SyntaxElement>) -> Option<Rc<Token>>
    decreases s.len(),
{
    if s.len() == 0 {
        None
    } else {
        match s[0] {
            SyntaxElement::Token(t) => Some(t),
            SyntaxElement::Node(_) => spec_first_token_child(s.drop_first()),
        }
    }
}

/// Fetch the `i`th node child of `n`, sharing the subtree.
pub fn nth_node_child(n: &SyntaxNode, i: usize) -> (r: Option<Rc<SyntaxNode>>)
    ensures
        r == spec_nth_node_child(n.children@, i as int),
{
    let mut j: usize = 0;
    let mut k: usize = i;
    proof {
        assert(n.children@.subrange(0, n.children@.len() as int) =~= n.children@);
    }
    while j < n.children.len()
        invariant
            0 <= j <= n.children@.len(),
            spec_nth_node_child(n.children@, i as int) == spec_nth_node_child(
                n.children@.subrange(j as int, n.children@.len() as int),
                k as int,
            ),
        decreases n.children@.len() - j,
    {
        let ghost rest = n.children@.subrange(j as int, n.children@.len() as int);
        proof {
            assert(rest[0] == n.children@[j as int]);
            assert(rest.drop_first() =~= n.children@.subrange(
                j + 1,
                n.children@.len() as int,
            ));
        }
        match &n.children[j] {
            SyntaxElement::Node(m) => {
                if k == 0 {
                    return Some(clone_rc_node(m));
                }
                k = k - 1;
            },
            SyntaxElement::Token(_) => {},
        }
        j = j + 1;
    }
    proof {
        assert(n.children@.subrange(n.children@.len() as int, n.children@.len() as int)
            =~= Seq::<SyntaxElement>::empty());
    }
    None
}

/// Fetch the first token child of `n`, sharing it.
pub fn first_token_child(n: &SyntaxNode) -> (r: Option<Rc<Token>>)
    ensures
        r == spec_first_token_child(n.children@),
{
    let mut j: usize = 0;
    proof {
        assert(n.children@.subrange(0, n.children@.len() as int) =~= n.children@);
    }
    while j < n.children.len()
        invariant
            0 <= j <= n.children@.len(),
            spec_first_token_child(n.children@) == spec_first_token_child(
                n.children@.subrange(j as int, n.children@.len() as int),
            ),
        decreases n.children@.len() - j,
    {
        let ghost rest = n.children@.subrange(j as int, n.children@.len() as int);
        proof {
            assert(rest[0] == n.children@[j as int]);
            assert(rest.drop_first() =~= n.children@.subrange(
                j + 1,
                n.children@.len() as int,
            ));
        }
        match &n.children[j] {
            SyntaxElement::Token(t) => {
                return Some(clone_rc_token(t));
            },
            SyntaxElement::Node(_) => {},
        }
        j = j + 1;
    }
    proof {
        assert(n.children@.subrange(n.children@.len() as int, n.children@.len() as int)
            =~= Seq::<SyntaxElement>::empty());
    }
    None
}

/// A list with a first token child has a token child somewhere.
pub proof fn lemma_first_token_some_exists(s: Seq<SyntaxElement>)
    requires
        spec_first_token_child(s) is Some,
    ensures
        exists|j: int| 0 <= j < s.len() && s[j] is Token,
    decreases s.len(),
{
    if s.len() > 0 {
        if s[0] is Token {
            assert(s[0] is Token);
        } else {
            lemma_first_token_some_exists(s.drop_first());
            let j = choose|j: int| 0 <= j < s.drop_first().len() && s.drop_first()[j] is Token;
            assert(s[j + 1] is Token);
        }
    }
}

/// A node is a `!`-negation: a unary expression whose operator is `!`.
pub open spec fn spec_is_negation(n: SyntaxNode) -> bool {
    n.kind == SyntaxKind::UnaryExpr && (match spec_first_token_child(n.children@) {
        Some(t) => t.kind == SyntaxKind::Bang,
        None => false,
    })
}

pub fn is_negation(n: &SyntaxNode) -> (r: bool)
    ensures
        r == spec_is_negation(*n),
{
    if n.kind == SyntaxKind::UnaryExpr {
        match first_token_child(n) {
            Some(t) => t.kind == SyntaxKind::Bang,
            None => false,
        }
    } else {
        false
    }
}

/// Typed view of a unary expression.
pub struct JsUnaryExpression {
    pub syntax: Rc<SyntaxNode>,
}

impl JsUnaryExpression {
    /// Succeeds exactly on the accepted kind; any other node yields
    /// absence, never a mismatched read.
    pub fn cast(node: Rc<SyntaxNode>) -> (r: Option<Self>)
        ensures
            (r is Some) <==> node.kind == SyntaxKind::UnaryExpr,
            r matches Some(w) ==> w.syntax == node,
    {
        if node.kind == SyntaxKind::UnaryExpr {
            Some(JsUnaryExpression { syntax: node })
        } else {
            None
        }
    }

    /// The operator token, absent if recovery dropped it.
    pub fn operator_token(&self) -> (r: Option<Rc<Token>>)
        ensures
            r == spec_first_token_child(self.syntax.children@),
    {
        first_token_child(&self.syntax)
    }

    /// The operand, absent if recovery dropped it.
    pub fn argument(&self) -> (r: Option<Rc<SyntaxNode>>)
        ensures
            r == spec_nth_node_child(self.syntax.children@, 0),
    {
        nth_node_child(&self.syntax, 0)
    }
}

/// Typed view of an `in` expression.
pub struct JsInExpression {
    pub syntax: Rc<SyntaxNode>,
}

impl JsInExpression {
    pub fn cast(node: Rc<SyntaxNode>) -> (r: Option<Self>)
        ensures
            (r is Some) <==> node.kind == SyntaxKind::InExpr,
            r matches Some(w) ==> w.syntax == node,
    {
        if node.kind == SyntaxKind::InExpr {
            Some(JsInExpression { syntax: node })
        } else {
            None
        }
    }

    /// The tested property: the left operand.
    pub fn property(&self) -> (r: Option<Rc<SyntaxNode>>)
        ensures
            r == spec_nth_node_child(self.syntax.children@, 0),
    {
        nth_node_child(&self.syntax, 0)
    }

    /// The object searched: the right operand.
    pub fn object(&self) -> (r: Option<Rc<SyntaxNode>>)
        ensures
            r == spec_nth_node_child(self.syntax.children@, 1),
    {
        nth_node_child(&self.syntax, 1)
    }
}

/// Typed view of an `instanceof` expression.
pub struct JsInstanceofExpression {
    pub syntax: Rc<SyntaxNode>,
}

impl JsInstanceofExpression {
    pub fn cast(node: Rc<SyntaxNode>) -> (r: Option<Self>)
        ensures
            (r is Some) <==> node.kind == SyntaxKind::InstanceofExpr,
            r matches Some(w) ==> w.syntax == node,
    {
        if node.kind == SyntaxKind::InstanceofExpr {
            Some(JsInstanceofExpression { syntax: node })
        } else {
            None
        }
    }

    pub fn left(&self) -> (r: Option<Rc<SyntaxNode>>)
        ensures
            r == spec_nth_node_child(self.syntax.children@, 0),
    {
        nth_node_child(&self.syntax, 0)
    }

    pub fn right(&self) -> (r: Option<Rc<SyntaxNode>>)
        ensures
            r == spec_nth_node_child(self.syntax.children@, 1),
    {
        nth_node_child(&self.syntax, 1)
    }
}

/// Grammar alternation as a closed tagged union: this slot holds an
/// `instanceof` expression or an `in` expression.
pub enum JsInOrInstanceOfExpression {
    JsInstanceofExpression(JsInstanceofExpression),
    JsInExpression(JsInExpression),
}

impl JsInOrInstanceOfExpression {
    /// Succeeds exactly on the union's kinds, choosing the variant by
    /// the kind tag; anything else yields absence.
    pub fn cast(node: Rc<SyntaxNode>) -> (r: Option<Self>)
        ensures
            (r is Some) <==> (node.kind == SyntaxKind::InExpr || node.kind
                == SyntaxKind::InstanceofExpr),
            r matches Some(JsInOrInstanceOfExpression::JsInExpression(w)) ==> w.syntax == node
                && node.kind == SyntaxKind::InExpr,
            r matches Some(JsInOrInstanceOfExpression::JsInstanceofExpression(w)) ==> w.syntax
                == node && node.kind == SyntaxKind::InstanceofExpr,
    {
        if node.kind == SyntaxKind::InExpr {
            Some(
                JsInOrInstanceOfExpression::JsInExpression(JsInExpression { syntax: node }),
            )
        } else if node.kind == SyntaxKind::InstanceofExpr {
            Some(
                JsInOrInstanceOfExpression::JsInstanceofExpression(
                    JsInstanceofExpression { syntax: node },
                ),
            )
        } else {
            None
        }
    }

    /// The underlying untyped node, shared.
    pub fn syntax(&self) -> (r: Rc<SyntaxNode>)
        ensures
            (self matches JsInOrInstanceOfExpression::JsInExpression(w) ==> r == w.syntax),
            (self matches JsInOrInstanceOfExpression::JsInstanceofExpression(w) ==> r
                == w.syntax),
    {
        match self {
            JsInOrInstanceOfExpression::JsInExpression(w) => clone_rc_node(&w.syntax),
            JsInOrInstanceOfExpression::JsInstanceofExpression(w) => clone_rc_node(&w.syntax),
        }
    }
}

} // verus!
