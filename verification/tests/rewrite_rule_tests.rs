use js_parser::ast::{JsInExpression, JsInOrInstanceOfExpression, JsUnaryExpression};
use js_parser::make::parenthesized;
use js_parser::no_unsafe_negation::{
    ActionCategory, Applicability, NoUnsafeNegation, RuleContext, RuleMessage,
};
use js_parser::parse::parse_script;
use js_parser::rewrite::{get_element, replace_node_discard_trivia};
use js_parser::syntax::SyntaxKind;
use js_parser::tree::{syntax_text, SyntaxElement, SyntaxNode};
use std::rc::Rc;

fn src(s: &str) -> Vec<u8> {
    s.as_bytes().to_vec()
}

fn child_node_rc(n: &SyntaxNode, i: usize) -> Rc<SyntaxNode> {
    match &n.children[i] {
        SyntaxElement::Node(m) => Rc::clone(m),
        SyntaxElement::Token(t) => panic!("expected node child, found token {:?}", t.kind),
    }
}

#[test]
fn replacement_splices_text_and_shares_the_rest() {
    // Replace the unary expression of `!1in[1,2]` with a parenthesized
    // copy of itself: only that region of the text changes.
    let p = parse_script(&src("!1in[1,2]"));
    assert!(!p.has_errors());
    let path: Vec<usize> = vec![0, 0, 0];
    let unary = get_element(&p.root, &path);
    let wrapped = parenthesized(unary);
    let new_root = replace_node_discard_trivia(
        &p.root,
        &path,
        SyntaxElement::Node(Rc::new(wrapped)),
    );
    assert_eq!(syntax_text(&new_root), src("(!1)in[1,2]"));
    // The original tree is untouched.
    assert_eq!(syntax_text(&p.root), src("!1in[1,2]"));
    // The untouched right operand is shared by reference between both
    // trees, not copied.
    let old_array = child_node_rc(&child_node_rc(&child_node_rc(&p.root, 0), 0), 2);
    let new_array = child_node_rc(&child_node_rc(&child_node_rc(&new_root, 0), 0), 2);
    assert!(Rc::ptr_eq(&old_array, &new_array));
}

#[test]
fn paths_reach_token_children_too() {
    let p = parse_script(&src("a+b"));
    assert!(!p.has_errors());
    // Path to the `+` token inside the binary expression.
    let path: Vec<usize> = vec![0, 0, 1];
    let plus = get_element(&p.root, &path);
    match plus {
        SyntaxElement::Token(t) => assert_eq!(t.kind, SyntaxKind::Plus),
        SyntaxElement::Node(_) => panic!("expected the operator token"),
    }
}

#[test]
fn typed_casts_accept_only_their_kinds() {
    let p = parse_script(&src("!1 in [1,2]"));
    let stmt = child_node_rc(&p.root, 0);
    let in_expr = child_node_rc(&stmt, 0);
    assert_eq!(in_expr.kind, SyntaxKind::InExpr);

    // The right cast succeeds and the wrong ones yield absence.
    assert!(JsInExpression::cast(Rc::clone(&in_expr)).is_some());
    assert!(JsUnaryExpression::cast(Rc::clone(&in_expr)).is_none());
    assert!(JsInOrInstanceOfExpression::cast(Rc::clone(&in_expr)).is_some());
    assert!(JsInOrInstanceOfExpression::cast(Rc::clone(&stmt)).is_none());

    // Accessors are fallible, never out of bounds.
    let typed = JsInExpression::cast(in_expr).unwrap();
    assert!(typed.property().is_some());
    assert!(typed.object().is_some());
}

#[test]
fn rule_fires_on_negated_in() {
    let p = parse_script(&src("!1 in [1,2]"));
    let ctx = RuleContext { root: Rc::new(p.root), path: vec![0, 0] };
    assert!(NoUnsafeNegation::run(&ctx).is_some());
    let d = NoUnsafeNegation::diagnostic(&ctx).unwrap();
    assert_eq!((d.span_start, d.span_end), (0, 11));
    assert_eq!(d.message, RuleMessage::UnsafeNegation);
}

#[test]
fn rule_is_quiet_without_negation() {
    let p = parse_script(&src("-1 in [1,2]"));
    let ctx = RuleContext { root: Rc::new(p.root), path: vec![0, 0] };
    assert!(NoUnsafeNegation::run(&ctx).is_none());
    assert!(NoUnsafeNegation::diagnostic(&ctx).is_none());
    assert!(NoUnsafeNegation::action(&ctx).is_none());
}

#[test]
fn fix_unavailable_when_operand_is_missing() {
    // `! in [1,2]` recovers to an in-expression whose negation lost
    // its operand: the rule still signals, but there is no fix.
    let p = parse_script(&src("! in [1,2]"));
    assert!(p.has_errors());
    let ctx = RuleContext { root: Rc::new(p.root), path: vec![0, 0] };
    assert!(NoUnsafeNegation::run(&ctx).is_some());
    assert!(NoUnsafeNegation::diagnostic(&ctx).is_some());
    assert!(NoUnsafeNegation::action(&ctx).is_none());
}

#[test]
fn fix_wraps_the_negation_in_parentheses() {
    let p = parse_script(&src("!1 in [1,2]"));
    let ctx = RuleContext { root: Rc::new(p.root), path: vec![0, 0] };
    let action = NoUnsafeNegation::action(&ctx).unwrap();
    assert_eq!(action.category, ActionCategory::QuickFix);
    assert_eq!(action.applicability, Applicability::MaybeIncorrect);
    assert_eq!(action.message, RuleMessage::WrapWithParenthesis);
    assert_eq!(syntax_text(&action.root), src("(!1) in [1,2]"));
}

#[test]
fn fix_applies_to_instanceof_and_keeps_comments() {
    let p = parse_script(&src("/**test*/!/** test*/1 instanceof [1,2]"));
    let ctx = RuleContext { root: Rc::new(p.root), path: vec![0, 0] };
    assert!(NoUnsafeNegation::run(&ctx).is_some());
    let action = NoUnsafeNegation::action(&ctx).unwrap();
    assert_eq!(
        syntax_text(&action.root),
        src("/**test*/(!/** test*/1) instanceof [1,2]")
    );
}
