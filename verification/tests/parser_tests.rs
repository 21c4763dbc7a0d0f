use dtacheck::diag::LabelStyle;
use dtacheck::diag::Severity;
use dtacheck::lexer::Span;
use dtacheck::lexer::lex;
use dtacheck::parser::Node;
use dtacheck::parser::NodeKind;
use dtacheck::parser::ParseLint;
use dtacheck::parser::parse;

fn parse_text(text: &[u8]) -> (Result<Vec<Node>, ()>, Vec<ParseLint>) {
    let tokens = lex(text);
    parse(&tokens)
}

#[test]
fn parse_array_of_three_ints() {
    let (res, diags) = parse_text(b"(1 2 3)");
    assert!(diags.is_empty());
    let ast = res.unwrap();
    assert_eq!(ast.len(), 1);
    assert_eq!(ast[0].span, Span { start: 0, end: 7 });
    match &ast[0].kind {
        NodeKind::Array(children) => {
            assert_eq!(children.len(), 3);
            assert!(matches!(children[0].kind, NodeKind::Int(1)));
            assert!(matches!(children[1].kind, NodeKind::Int(2)));
            assert!(matches!(children[2].kind, NodeKind::Int(3)));
        }
        other => panic!("expected an array, got {:?}", other),
    }
}

#[test]
fn parse_unclosed_array_recovers_with_one_diagnostic() {
    let (res, diags) = parse_text(b"(1 2");
    let ast = res.unwrap();
    assert_eq!(ast.len(), 1);
    assert!(matches!(ast[0].kind, NodeKind::Array(ref c) if c.len() == 2));
    assert_eq!(diags.len(), 1);
    match diags[0] {
        ParseLint::UnmatchedBrace(opening, closing) => {
            assert_eq!(opening, Span { start: 0, end: 1 });
            assert_eq!(closing, Span { start: 4, end: 4 });
        }
        other => panic!("expected an unmatched delimiter, got {:?}", other),
    }
}

#[test]
fn parse_stray_closer_is_fatal() {
    let (res, diags) = parse_text(b")");
    assert!(res.is_err());
    assert_eq!(diags.len(), 1);
    assert!(matches!(diags[0], ParseLint::GenericError(s) if s == (Span { start: 0, end: 1 })));
}

#[test]
fn parse_stmt_and_prop() {
    let (res, diags) = parse_text(b"{do [x] \"s\"}");
    assert!(diags.is_empty());
    let ast = res.unwrap();
    match &ast[0].kind {
        NodeKind::Stmt(children) => {
            assert!(matches!(children[0].kind, NodeKind::Symbol(ref s) if s == b"do"));
            assert!(matches!(children[1].kind, NodeKind::Prop(ref c) if c.len() == 1));
            assert!(matches!(children[2].kind, NodeKind::Str(ref s) if s == b"s"));
        }
        other => panic!("expected a statement, got {:?}", other),
    }
}

#[test]
fn parse_leaves() {
    let (res, diags) = parse_text(b"(#else #endif #autorun kDataUnhandled $v 1.5)");
    assert!(diags.is_empty());
    let ast = res.unwrap();
    match &ast[0].kind {
        NodeKind::Array(children) => {
            assert!(matches!(children[0].kind, NodeKind::Else));
            assert!(matches!(children[1].kind, NodeKind::EndIf));
            assert!(matches!(children[2].kind, NodeKind::Autorun));
            assert!(matches!(children[3].kind, NodeKind::Unhandled));
            assert!(matches!(children[4].kind, NodeKind::Var(ref s) if s == b"$v"));
            assert!(matches!(children[5].kind, NodeKind::Float(ref s) if s == b"1.5"));
        }
        other => panic!("expected an array, got {:?}", other),
    }
}

#[test]
fn parse_ifdef_takes_one_symbol() {
    let (res, diags) = parse_text(b"#ifdef FOO");
    assert!(diags.is_empty());
    let ast = res.unwrap();
    assert!(matches!(ast[0].kind, NodeKind::IfDef(ref s) if s == b"FOO"));
    assert_eq!(ast[0].span, Span { start: 0, end: 10 });
}

#[test]
fn parse_ifdef_without_symbol_is_fatal() {
    let (res, diags) = parse_text(b"#ifdef (");
    assert!(res.is_err());
    assert_eq!(diags.len(), 1);
    assert!(matches!(diags[0], ParseLint::GenericError(s) if s == (Span { start: 7, end: 8 })));
}

#[test]
fn parse_define_span_is_clamped_to_name_end() {
    let (res, diags) = parse_text(b"#define foo (1 2)");
    assert!(diags.is_empty());
    let ast = res.unwrap();
    match &ast[0].kind {
        NodeKind::Define(name, body) => {
            assert_eq!(name.as_slice(), b"foo");
            assert_eq!(body.len(), 2);
        }
        other => panic!("expected a define, got {:?}", other),
    }
    // the span ends at the smaller of the body end and the name end
    assert_eq!(ast[0].span, Span { start: 0, end: 11 });
}

#[test]
fn parse_nested_recovery_emits_one_diagnostic_per_open_delimiter() {
    let (res, diags) = parse_text(b"( [ )");
    let ast = res.unwrap();
    assert_eq!(ast.len(), 1);
    assert_eq!(diags.len(), 2);
    assert!(matches!(
        diags[0],
        ParseLint::UnmatchedBrace(o, c)
            if o == (Span { start: 2, end: 3 }) && c == (Span { start: 4, end: 5 })
    ));
    assert!(matches!(
        diags[1],
        ParseLint::UnmatchedBrace(o, c)
            if o == (Span { start: 0, end: 1 }) && c == (Span { start: 5, end: 5 })
    ));
}

#[test]
fn parse_invalid_token_is_fatal() {
    let (res, diags) = parse_text(b"(1 99999999999)");
    assert!(res.is_err());
    assert_eq!(diags.len(), 1);
    assert!(matches!(diags[0], ParseLint::GenericError(s) if s == (Span { start: 3, end: 14 })));
}

#[test]
fn node_is_preproc() {
    let (res, _) = parse_text(b"(#autorun 1)");
    let ast = res.unwrap();
    match &ast[0].kind {
        NodeKind::Array(children) => {
            assert!(children[0].is_preproc());
            assert!(!children[1].is_preproc());
        }
        other => panic!("expected an array, got {:?}", other),
    }
    let (res2, _) = parse_text(b"#define foo (1)");
    let ast2 = res2.unwrap();
    assert!(ast2[0].is_preproc());
}

#[test]
fn parse_lint_to_diagnostic_shapes() {
    let l = ParseLint::UnmatchedBrace(Span { start: 0, end: 1 }, Span { start: 4, end: 4 });
    let d = l.to_diagnostic();
    assert_eq!(d.severity, Severity::Error);
    assert_eq!(d.message, b"unmatched delimiter".to_vec());
    assert_eq!(d.labels.len(), 2);
    assert_eq!(d.labels[0].style, LabelStyle::Primary);
    assert_eq!(d.labels[0].span, Span { start: 0, end: 1 });
    assert_eq!(d.labels[0].message, b"unmatched delimiter".to_vec());
    assert_eq!(d.labels[1].style, LabelStyle::Secondary);
    assert_eq!(d.labels[1].span, Span { start: 4, end: 4 });
    assert_eq!(d.labels[1].message, b"unexpected token".to_vec());

    let g = ParseLint::GenericError(Span { start: 0, end: 1 });
    let dg = g.to_diagnostic();
    assert_eq!(dg.severity, Severity::Error);
    assert_eq!(dg.message, b"unexpected token".to_vec());
    assert_eq!(dg.labels.len(), 1);
}

#[test]
fn parse_define_with_empty_body_has_the_degenerate_span() {
    // the clamp takes the smaller of the empty body's reversed extent and
    // the name end, so the span collapses to start..0
    let (res, diags) = parse_text(b"x #define foo ()");
    assert!(diags.is_empty());
    let ast = res.unwrap();
    assert!(matches!(ast[1].kind, NodeKind::Define(ref n, ref b) if n == b"foo" && b.is_empty()));
    assert_eq!(ast[1].span, Span { start: 2, end: 0 });
}

#[test]
fn parse_one_symbol_directives() {
    let mut input = b"#inclu".to_vec();
    input.extend_from_slice(b"de a #merge b #ifndef c #undef d");
    let tokens = dtacheck::lexer::lex(&input);
    let (res, diags) = dtacheck::parser::parse(&tokens);
    assert!(diags.is_empty());
    let ast = res.unwrap();
    assert!(matches!(ast[0].kind, NodeKind::Incl(ref s) if s == b"a"));
    assert!(matches!(ast[1].kind, NodeKind::Merge(ref s) if s == b"b"));
    assert!(matches!(ast[2].kind, NodeKind::IfNDef(ref s) if s == b"c"));
    assert!(matches!(ast[3].kind, NodeKind::Undef(ref s) if s == b"d"));
    assert!(ast.iter().all(|n| n.is_preproc()));
}
