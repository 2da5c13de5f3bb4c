//! A consumer of the typed tree and the rewrite layer: the rule that
//! disallows `!x in y` and `!x instanceof y`, where the negation binds
//! tighter than the author probably meant. Its fix wraps the negated
//! operand in parentheses in place — `!x in y` becomes `(!x) in y` —
//! keeping the original tokens, so comments and spacing survive.

use vstd::prelude::*;
use crate::syntax::{SyntaxKind, trivia_concat};
use crate::tree::{
    SyntaxNode, SyntaxElement, node_of, token_of, elem_text, node_text, clone_element,
    elem_has_token, node_has_token, lead_text, trail_text,
};
use crate::ast::{
    JsInOrInstanceOfExpression, is_negation, spec_is_negation, spec_nth_node_child,
    spec_first_token_child, lemma_first_token_some_exists, nth_node_child,
};
use crate::rewrite::{
    path_valid, element_at, replaced, get_element, node_span, path_offset,
    replace_node_discard_trivia,
};
use crate::make::parenthesized_keeping_trivia;
use crate::diagnostic::Severity;
use std::rc::Rc;

verus! {

/// What kind of action a rule offers.
#[derive(Clone, Copy, PartialEq, Eq, Structural, Debug)]
pub enum ActionCategory {
    QuickFix,
}

/// How safe an automatic fix is.
#[derive(Clone, Copy, PartialEq, Eq, Structural, Debug)]
pub enum Applicability {
    Always,
    MaybeIncorrect,
}

/// Messages this rule can attach to diagnostics and actions.
#[derive(Clone, Copy, PartialEq, Eq, Structural, Debug)]
pub enum RuleMessage {
    /// The negation operator is used unsafely on the left side of a
    /// binary expression.
    UnsafeNegation,
    /// Wrap the expression with a parenthesis.
    WrapWithParenthesis,
}

/// A rule diagnostic: where, how bad, and which message.
#[derive(Clone, Copy, PartialEq, Eq, Structural, Debug)]
pub struct RuleDiagnostic {
    pub span_start: usize,
    pub span_end: usize,
    pub severity: Severity,
    pub message: RuleMessage,
}

/// A proposed fix: a new root plus the descriptor consumers show.
pub struct JsRuleAction {
    pub category: ActionCategory,
    pub applicability: Applicability,
    pub message: RuleMessage,
    /// The rewritten tree.
    pub root: SyntaxNode,
    /// The element that replaced the matched node, for checking.
    pub replacement: SyntaxElement,
}

/// What the analyzer hands a rule: the tree root and the path of the
/// queried node, which has one of the union's kinds.
pub struct RuleContext {
    pub root: Rc<SyntaxNode>,
    pub path: Vec<usize>,
}

impl RuleContext {
    pub open spec fn wf(self) -> bool {
        &&& self.path@.len() > 0
        &&& path_valid(*self.root, self.path@)
        &&& element_at(*self.root, self.path@) is Node
        &&& {
            let k = node_of(element_at(*self.root, self.path@)).kind;
            k == SyntaxKind::InExpr || k == SyntaxKind::InstanceofExpr
        }
    }

    /// The queried node as a node of the tree.
    pub open spec fn node(self) -> SyntaxNode {
        node_of(element_at(*self.root, self.path@))
    }

    /// The queried node, as the typed union.
    pub fn query(&self) -> (r: JsInOrInstanceOfExpression)
        requires
            self.wf(),
        ensures
            r matches JsInOrInstanceOfExpression::JsInExpression(w) ==> *w.syntax == self.node()
                && self.node().kind == SyntaxKind::InExpr,
            r matches JsInOrInstanceOfExpression::JsInstanceofExpression(w) ==> *w.syntax
                == self.node() && self.node().kind == SyntaxKind::InstanceofExpr,
    {
        let el = get_element(&self.root, &self.path);
        match el {
            SyntaxElement::Node(rc) => {
                match JsInOrInstanceOfExpression::cast(rc) {
                    Some(u) => u,
                    None => {
                        proof {
                            assert(false);
                        }
                        vstd::pervasive::unreached()
                    },
                }
            },
            SyntaxElement::Token(_) => {
                proof {
                    assert(false);
                }
                vstd::pervasive::unreached()
            },
        }
    }
}

/// The rule fires when the queried expression's left operand is a
/// `!`-negation.
pub open spec fn rule_fires(n: SyntaxNode) -> bool {
    &&& (n.kind == SyntaxKind::InExpr || n.kind == SyntaxKind::InstanceofExpr)
    &&& (match spec_nth_node_child(n.children@, 0) {
        Some(l) => spec_is_negation(*l),
        None => false,
    })
}

/// The fix is offered only when it can be built whole: the rule fires
/// and the negation's own operand is present. On error-recovered
/// trees whose negation lost its operand the rule still signals, but
/// there is no fix available, and the tree is left untouched.
pub open spec fn fix_applicable(n: SyntaxNode) -> bool {
    &&& rule_fires(n)
    &&& (match spec_nth_node_child(n.children@, 0) {
        Some(l) => spec_nth_node_child(l.children@, 0) is Some,
        None => false,
    })
}

/// The shape of the fix at child index `ix` of the matched node: the
/// same expression, with the negated left operand wrapped in fresh
/// parentheses in place. The operand's outer trivia moves onto the
/// parentheses, so the committed text inserts exactly one `(` after
/// the operand's leading trivia and one `)` before its trailing
/// trivia: `!x in y` becomes `(!x) in y`.
pub open spec fn fix_built_at(orig: SyntaxNode, e: SyntaxElement, ix: int) -> bool {
    &&& 0 <= ix < orig.children@.len()
    &&& (forall|j: int| 0 <= j < ix ==> !(orig.children@[j] is Node))
    &&& orig.children@[ix] is Node
    &&& e is Node
    &&& {
        let u = node_of(e);
        let old_left = orig.children@[ix];
        &&& u.kind == orig.kind
        &&& u.children@.len() == orig.children@.len()
        &&& (forall|j: int|
            0 <= j < orig.children@.len() && j != ix ==> u.children@[j] == orig.children@[j])
        &&& u.children@[ix] is Node
        &&& {
            let par = node_of(u.children@[ix]);
            let lead = lead_text(old_left);
            let trail = trail_text(old_left);
            let whole = elem_text(old_left);
            &&& par.kind == SyntaxKind::ParenExpr
            &&& par.children@.len() == 3
            &&& par.children@[0] is Token
            &&& token_of(par.children@[0]).kind == SyntaxKind::LParen
            &&& token_of(par.children@[0]).text@ == seq![40u8]
            &&& trivia_concat(token_of(par.children@[0]).leading@) == lead
            &&& token_of(par.children@[0]).trailing@.len() == 0
            &&& par.children@[2] is Token
            &&& token_of(par.children@[2]).kind == SyntaxKind::RParen
            &&& token_of(par.children@[2]).text@ == seq![41u8]
            &&& token_of(par.children@[2]).leading@.len() == 0
            &&& trivia_concat(token_of(par.children@[2]).trailing@) == trail
            &&& par.children@[1] is Node
            &&& node_of(par.children@[1]).kind == node_of(old_left).kind
            &&& lead.len() + trail.len() <= whole.len()
            &&& lead == whole.subrange(0, lead.len() as int)
            &&& trail == whole.subrange(whole.len() - trail.len(), whole.len() as int)
            &&& elem_text(par.children@[1]) == whole.subrange(
                lead.len() as int,
                whole.len() - trail.len(),
            )
            &&& node_text(par) == lead + seq![40u8] + whole.subrange(
                lead.len() as int,
                whole.len() - trail.len(),
            ) + seq![41u8] + trail
        }
    }
}

pub open spec fn fix_built(orig: SyntaxNode, e: SyntaxElement) -> bool {
    exists|ix: int| fix_built_at(orig, e, ix)
}

/// Index of the first node-valued child.
fn first_node_child_idx(n: &SyntaxNode) -> (r: Option<usize>)
    ensures
        r matches Some(ix) ==> ix < n.children@.len() && n.children@[ix as int] is Node && (
        forall|j: int| 0 <= j < ix ==> !(n.children@[j] is Node)),
        r is None ==> forall|j: int| 0 <= j < n.children@.len() ==> !(n.children@[j] is Node),
{
    let mut j: usize = 0;
    while j < n.children.len()
        invariant
            0 <= j <= n.children@.len(),
            forall|m: int| 0 <= m < j ==> !(n.children@[m] is Node),
        decreases n.children@.len() - j,
    {
        match &n.children[j] {
            SyntaxElement::Node(_) => {
                return Some(j);
            },
            SyntaxElement::Token(_) => {},
        }
        j = j + 1;
    }
    None
}

/// With no node child before `ix` and a node child at `ix`, the first
/// node child is the one at `ix`.
proof fn lemma_first_node_child(s: Seq<SyntaxElement>, ix: int)
    requires
        0 <= ix < s.len(),
        s[ix] is Node,
        forall|j: int| 0 <= j < ix ==> !(s[j] is Node),
    ensures
        spec_nth_node_child(s, 0) == (match s[ix] {
            SyntaxElement::Node(m) => Some(m),
            SyntaxElement::Token(_) => None,
        }),
    decreases ix,
{
    if ix == 0 {
    } else {
        assert(s.drop_first()[ix - 1] == s[ix]);
        assert(forall|j: int| 0 <= j < ix - 1 ==> s.drop_first()[j] == s[j + 1]);
        lemma_first_node_child(s.drop_first(), ix - 1);
    }
}

/// With no node child at all, there is no first node child.
proof fn lemma_no_node_child(s: Seq<SyntaxElement>)
    requires
        forall|j: int| 0 <= j < s.len() ==> !(s[j] is Node),
    ensures
        spec_nth_node_child(s, 0) is None,
    decreases s.len(),
{
    if s.len() > 0 {
        assert(forall|j: int| 0 <= j < s.drop_first().len() ==> s.drop_first()[j] == s[j + 1]);
        lemma_no_node_child(s.drop_first());
    }
}

/// Disallow using unsafe negation: `!x in y` and `!x instanceof y`
/// negate only `x`, not the whole test.
pub struct NoUnsafeNegation;

impl NoUnsafeNegation {
    /// Signal exactly when the queried expression's left operand is a
    /// negation.
    pub fn run(ctx: &RuleContext) -> (r: Option<()>)
        requires
            ctx.wf(),
        ensures
            (r is Some) <==> rule_fires(ctx.node()),
    {
        let node = ctx.query();
        match node {
            JsInOrInstanceOfExpression::JsInstanceofExpression(expr) => {
                match expr.left() {
                    Some(left) => if is_negation(&left) {
                        Some(())
                    } else {
                        None
                    },
                    None => None,
                }
            },
            JsInOrInstanceOfExpression::JsInExpression(expr) => {
                match expr.property() {
                    Some(left) => if is_negation(&left) {
                        Some(())
                    } else {
                        None
                    },
                    None => None,
                }
            },
        }
    }

    /// The diagnostic, spanning exactly the matched expression.
    pub fn diagnostic(ctx: &RuleContext) -> (r: Option<RuleDiagnostic>)
        requires
            ctx.wf(),
        ensures
            (r is Some) <==> rule_fires(ctx.node()),
            r matches Some(d) ==> d.span_start as int == path_offset(*ctx.root, ctx.path@)
                && d.span_end as int == path_offset(*ctx.root, ctx.path@) + elem_text(
                element_at(*ctx.root, ctx.path@),
            ).len() && d.severity == Severity::Error && d.message == RuleMessage::UnsafeNegation,
    {
        match Self::run(ctx) {
            Some(_) => {
                let (s, e) = node_span(&ctx.root, &ctx.path);
                Some(
                    RuleDiagnostic {
                        span_start: s,
                        span_end: e,
                        severity: Severity::Error,
                        message: RuleMessage::UnsafeNegation,
                    },
                )
            },
            None => None,
        }
    }

    /// The fix: wrap the negated left operand in parentheses, in
    /// place, keeping its outer trivia outside the new parentheses:
    /// `!x in y` becomes `(!x) in y`. When the fix's precondition is
    /// not met — the negation has no operand — there is no fix, and
    /// nothing is rebuilt.
    pub fn action(ctx: &RuleContext) -> (r: Option<JsRuleAction>)
        requires
            ctx.wf(),
        ensures
            (r is Some) <==> fix_applicable(ctx.node()),
            r matches Some(a) ==> replaced(*ctx.root, a.root, ctx.path@, a.replacement)
                && fix_built(ctx.node(), a.replacement) && a.category == ActionCategory::QuickFix
                && a.applicability == Applicability::MaybeIncorrect && a.message
                == RuleMessage::WrapWithParenthesis,
    {
        let node = ctx.query();
        let expr_syntax: Rc<SyntaxNode> = node.syntax();
        let left = match &node {
            JsInOrInstanceOfExpression::JsInstanceofExpression(expr) => expr.left(),
            JsInOrInstanceOfExpression::JsInExpression(expr) => expr.property(),
        };
        let left = match left {
            Some(l) => l,
            None => {
                return None;
            },
        };
        if !is_negation(&left) {
            return None;
        }
        match nth_node_child(&left, 0) {
            Some(_) => {},
            None => {
                // The negation's operand is absent (error recovery):
                // no fix available.
                return None;
            },
        }
        let lidx = match first_node_child_idx(&expr_syntax) {
            Some(ix) => ix,
            None => {
                proof {
                    lemma_no_node_child(expr_syntax.children@);
                    assert(false);
                }
                vstd::pervasive::unreached()
            },
        };
        proof {
            lemma_first_node_child(expr_syntax.children@, lidx as int);
            // The negation holds an operator token, so the operand
            // subtree holds a token and can donate its outer trivia.
            assert(spec_first_token_child(left.children@) is Some);
            lemma_first_token_some_exists(left.children@);
            let j = choose|j: int|
                0 <= j < left.children@.len() && left.children@[j] is Token;
            assert(elem_has_token(left.children@[j]));
            assert(node_has_token(*left));
        }
        let left_elem = SyntaxElement::Node(left);
        proof {
            assert(expr_syntax.children@[lidx as int] == left_elem);
            assert(elem_has_token(left_elem));
        }
        let next_parenthesis_expression = parenthesized_keeping_trivia(&left_elem);
        let mut inner_path: Vec<usize> = Vec::new();
        inner_path.push(lidx);
        proof {
            assert(inner_path@ =~= seq![lidx]);
        }
        let next_expr = replace_node_discard_trivia(
            &expr_syntax,
            &inner_path,
            SyntaxElement::Node(Rc::new(next_parenthesis_expression)),
        );
        let replacement = SyntaxElement::Node(Rc::new(next_expr));
        let stored = clone_element(&replacement);
        let new_root = replace_node_discard_trivia(&ctx.root, &ctx.path, replacement);
        proof {
            assert(fix_built_at(ctx.node(), stored, lidx as int));
        }
        Some(
            JsRuleAction {
                category: ActionCategory::QuickFix,
                applicability: Applicability::MaybeIncorrect,
                message: RuleMessage::WrapWithParenthesis,
                root: new_root,
                replacement: stored,
            },
        )
    }
}

} // verus!
