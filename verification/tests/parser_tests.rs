use js_parser::diagnostic::DiagnosticCode;
use js_parser::event::{is_balanced, Event};
use js_parser::lexer::{lex_one, JsLexContext};
use js_parser::parse::{parse, parse_module, parse_script, parse_to_events};
use js_parser::parser::{JsParser, JsSourceType, Language, LanguageVariant, ModuleKind};
use js_parser::syntax::SyntaxKind;
use js_parser::tree::{syntax_text, SyntaxElement, SyntaxNode};
use js_parser::source::TokenSource;
use js_parser::JsSyntaxFeature;

fn src(s: &str) -> Vec<u8> {
    s.as_bytes().to_vec()
}

fn roundtrip(s: &str) {
    let p = parse_script(&src(s));
    assert_eq!(syntax_text(&p.root), src(s));
}

fn child_node(n: &SyntaxNode, i: usize) -> &SyntaxNode {
    match &n.children[i] {
        SyntaxElement::Node(m) => m,
        SyntaxElement::Token(t) => panic!("expected node child, found token {:?}", t.kind),
    }
}

fn child_token_kind(n: &SyntaxNode, i: usize) -> SyntaxKind {
    match &n.children[i] {
        SyntaxElement::Token(t) => t.kind,
        SyntaxElement::Node(m) => panic!("expected token child, found node {:?}", m.kind),
    }
}

#[test]
fn roundtrip_empty() {
    roundtrip("");
}

#[test]
fn roundtrip_whitespace_only() {
    roundtrip("  \n\t  \r\n ");
}

#[test]
fn roundtrip_simple_program() {
    roundtrip("1 + 2 * 3;\nfoo(bar, baz);\n");
}

#[test]
fn roundtrip_comments_and_strings() {
    roundtrip("// line\nx = 'str\\'ing'; /* block\ncomment */ y\n");
}

#[test]
fn roundtrip_malformed() {
    roundtrip("function (");
    roundtrip("}}}");
    roundtrip("1 + + ; ] [");
    roundtrip("'unterminated");
    roundtrip("/* unterminated comment");
}

#[test]
fn roundtrip_binary_garbage() {
    let bytes: Vec<u8> = vec![0, 1, 2, 255, 254, 128, 10, 64, 35, 96, 7];
    let p = parse_script(&bytes);
    assert_eq!(syntax_text(&p.root), bytes);
    assert!(p.has_errors());
}

#[test]
fn totality_on_all_single_bytes() {
    for b in 0..=255u8 {
        let bytes = vec![b];
        let p = parse_script(&bytes);
        assert_eq!(syntax_text(&p.root), bytes);
    }
}

#[test]
fn precedence_of_product_over_sum() {
    // `1+2*3` parses as 1 + (2 * 3).
    let p = parse_script(&src("1+2*3"));
    assert_eq!(syntax_text(&p.root), src("1+2*3"));
    assert!(!p.has_errors());
    let stmt = child_node(&p.root, 0);
    assert_eq!(stmt.kind, SyntaxKind::ExprStmt);
    let sum = child_node(stmt, 0);
    assert_eq!(sum.kind, SyntaxKind::BinaryExpr);
    assert_eq!(child_token_kind(sum, 1), SyntaxKind::Plus);
    let right = child_node(sum, 2);
    assert_eq!(right.kind, SyntaxKind::BinaryExpr);
    assert_eq!(child_token_kind(right, 1), SyntaxKind::Star);
}

#[test]
fn unary_in_expression_shape() {
    // `!1 in [1,2]` parses as (!1) in [1,2]: the negation binds tighter.
    let p = parse_script(&src("!1 in [1,2]"));
    assert!(!p.has_errors());
    let stmt = child_node(&p.root, 0);
    let in_expr = child_node(stmt, 0);
    assert_eq!(in_expr.kind, SyntaxKind::InExpr);
    let left = child_node(in_expr, 0);
    assert_eq!(left.kind, SyntaxKind::UnaryExpr);
    assert_eq!(child_token_kind(left, 0), SyntaxKind::Bang);
}

#[test]
fn truncated_function_keeps_tree_and_reports() {
    let text = src("function (");
    let p = parse_script(&text);
    assert_eq!(syntax_text(&p.root), text);
    assert!(p.has_errors());
    assert!(!p.diagnostics.is_empty());
    // The function declaration and its (incomplete) parameter list exist.
    let decl = child_node(&p.root, 0);
    assert_eq!(decl.kind, SyntaxKind::FunctionDecl);
    let params = child_node(decl, 1);
    assert_eq!(params.kind, SyntaxKind::ParamList);
}

#[test]
fn stray_brace_becomes_error_node_and_parsing_continues() {
    let text = src("} x");
    let p = parse_script(&text);
    assert_eq!(syntax_text(&p.root), text);
    assert!(p.has_errors());
    let err = child_node(&p.root, 0);
    assert_eq!(err.kind, SyntaxKind::ErrorNode);
    let stmt = child_node(&p.root, 1);
    assert_eq!(stmt.kind, SyntaxKind::ExprStmt);
}

#[test]
fn event_stream_is_balanced() {
    for text in ["", "1+2*3", "function f(a,b){a;}", "}}}!", "'x"] {
        let (_tokens, events, _diags) = parse_to_events(
            &src(text),
            JsSourceType {
                language: Language::JavaScript,
                variant: LanguageVariant::Standard,
                module_kind: ModuleKind::Script,
            },
        );
        assert!(is_balanced(&events));
    }
}

#[test]
fn depth_checker_rejects_malformed_streams() {
    assert!(!is_balanced(&vec![Event::FinishNode]));
    assert!(!is_balanced(&vec![Event::StartNode(SyntaxKind::Root)]));
    assert!(is_balanced(&vec![
        Event::StartNode(SyntaxKind::Root),
        Event::FinishNode
    ]));
}

#[test]
fn lexer_context_disambiguates_slash() {
    let text = src("/ab/g");
    let (k, end, d) = lex_one(&text, 0, JsLexContext::Regex);
    assert_eq!(k, SyntaxKind::Regex);
    assert_eq!(end, 4);
    assert!(d.is_none());
    // Re-lexing the same offset under the other context gives division.
    let (k2, end2, d2) = lex_one(&text, 0, JsLexContext::Regular);
    assert_eq!(k2, SyntaxKind::Slash);
    assert_eq!(end2, 1);
    assert!(d2.is_none());
}

#[test]
fn regex_versus_divide_in_whole_parse() {
    // After an identifier, `/` divides; at expression start, it lexes a
    // regular expression.
    let p = parse_script(&src("a / b"));
    assert!(!p.has_errors());
    let stmt = child_node(&p.root, 0);
    let div = child_node(stmt, 0);
    assert_eq!(div.kind, SyntaxKind::BinaryExpr);
    assert_eq!(child_token_kind(div, 1), SyntaxKind::Slash);

    let p2 = parse_script(&src("/ab/"));
    assert!(!p2.has_errors());
    let stmt2 = child_node(&p2.root, 0);
    let lit = child_node(stmt2, 0);
    assert_eq!(lit.kind, SyntaxKind::LiteralExpr);
    assert_eq!(child_token_kind(lit, 0), SyntaxKind::Regex);
}

#[test]
fn trailing_trivia_stays_on_the_same_line() {
    // Same-line trivia trails the token before it; from the first
    // newline on, trivia leads the next token.
    let (tokens, _events, _diags) = parse_to_events(
        &src("a //c\nb"),
        JsSourceType {
            language: Language::JavaScript,
            variant: LanguageVariant::Standard,
            module_kind: ModuleKind::Script,
        },
    );
    assert_eq!(tokens[0].kind, SyntaxKind::Ident);
    assert_eq!(tokens[0].text, b"a".to_vec());
    assert_eq!(tokens[0].trailing.len(), 2);
    assert_eq!(tokens[0].trailing[0].text, b" ".to_vec());
    assert_eq!(tokens[0].trailing[1].text, b"//c".to_vec());
    assert_eq!(tokens[1].kind, SyntaxKind::Ident);
    assert_eq!(tokens[1].leading.len(), 1);
    assert_eq!(tokens[1].leading[0].text, b"\n".to_vec());
}

#[test]
fn own_line_comment_leads_the_next_token() {
    let (tokens, _events, _diags) = parse_to_events(
        &src("a\n//c\nb"),
        JsSourceType {
            language: Language::JavaScript,
            variant: LanguageVariant::Standard,
            module_kind: ModuleKind::Script,
        },
    );
    assert_eq!(tokens[0].trailing.len(), 0);
    assert_eq!(tokens[1].leading.len(), 3);
    assert_eq!(tokens[1].leading[1].text, b"//c".to_vec());
}

#[test]
fn trivia_after_last_token_gathers_on_eof() {
    let (tokens, _events, _diags) = parse_to_events(
        &src("a\n// tail\n"),
        JsSourceType {
            language: Language::JavaScript,
            variant: LanguageVariant::Standard,
            module_kind: ModuleKind::Script,
        },
    );
    let eof = tokens.last().unwrap();
    assert_eq!(eof.kind, SyntaxKind::Eof);
    assert!(eof.text.is_empty());
    assert_eq!(eof.leading.len(), 3);
}

#[test]
fn unterminated_string_reports_and_roundtrips() {
    let text = src("'abc");
    let p = parse_script(&text);
    assert_eq!(syntax_text(&p.root), text);
    assert!(p.has_errors());
    let d = &p.diagnostics[0];
    assert_eq!(d.span_start, 0);
    assert_eq!(d.span_end, 4);
}

#[test]
fn recovery_diagnostic_names_expectation_and_span() {
    let text = src("a @");
    let p = parse_script(&text);
    assert!(p.has_errors());
    let d = &p.diagnostics[0];
    assert_eq!((d.span_start, d.span_end), (2, 3));
    assert_eq!(d.code, DiagnosticCode::ExpectedStatement);
}

#[test]
fn syntax_features_follow_parser_state() {
    let script = JsParser::new(
        &src("x"),
        JsSourceType {
            language: Language::JavaScript,
            variant: LanguageVariant::Standard,
            module_kind: ModuleKind::Script,
        },
    );
    assert!(JsSyntaxFeature::SloppyMode.is_supported(&script));
    assert!(!JsSyntaxFeature::StrictMode.is_supported(&script));
    assert!(!JsSyntaxFeature::TypeScript.is_supported(&script));
    assert!(!JsSyntaxFeature::Jsx.is_supported(&script));

    let module = JsParser::new(
        &src("x"),
        JsSourceType {
            language: Language::TypeScript,
            variant: LanguageVariant::Jsx,
            module_kind: ModuleKind::Module,
        },
    );
    assert!(!JsSyntaxFeature::SloppyMode.is_supported(&module));
    assert!(JsSyntaxFeature::StrictMode.is_supported(&module));
    assert!(JsSyntaxFeature::TypeScript.is_supported(&module));
    assert!(JsSyntaxFeature::Jsx.is_supported(&module));
}

#[test]
fn parse_module_roundtrips_too() {
    let text = src("a in b;\n");
    let p = parse_module(&text);
    assert_eq!(syntax_text(&p.root), text);
    assert!(!p.has_errors());
}

#[test]
fn keywords_are_distinguished_from_identifiers() {
    let p = parse(
        &src("instanceofx instanceof functionx"),
        JsSourceType {
            language: Language::JavaScript,
            variant: LanguageVariant::Standard,
            module_kind: ModuleKind::Script,
        },
    );
    assert!(!p.has_errors());
    let stmt = child_node(&p.root, 0);
    let e = child_node(stmt, 0);
    assert_eq!(e.kind, SyntaxKind::InstanceofExpr);
}

#[test]
fn missing_operand_reports_expected_expression() {
    let text = src("(1+");
    let p = parse_script(&text);
    assert_eq!(syntax_text(&p.root), text);
    assert!(p
        .diagnostics
        .iter()
        .any(|d| d.code == DiagnosticCode::ExpectedExpression));
    assert!(p.diagnostics.iter().any(|d| d.code
        == DiagnosticCode::ExpectedToken(SyntaxKind::RParen)));
}

#[test]
fn unterminated_regex_reports() {
    let text = src("/ab");
    let p = parse_script(&text);
    assert_eq!(syntax_text(&p.root), text);
    assert!(p
        .diagnostics
        .iter()
        .any(|d| d.code == DiagnosticCode::UnterminatedRegex));
}

#[test]
fn unterminated_comment_reports() {
    let text = src("1 /* tail");
    let p = parse_script(&text);
    assert_eq!(syntax_text(&p.root), text);
    assert!(p
        .diagnostics
        .iter()
        .any(|d| d.code == DiagnosticCode::UnterminatedComment));
}

#[test]
fn lookahead_is_bounded_and_total() {
    let (ts, _diags) = TokenSource::new(&src("a b"));
    assert_eq!(ts.nth_kind(0), SyntaxKind::Ident);
    assert_eq!(ts.nth_kind(1), SyntaxKind::Ident);
    assert_eq!(ts.nth_kind(2), SyntaxKind::Eof);
    assert_eq!(ts.nth_kind(100), SyntaxKind::Eof);
}
