use dtacheck::diag::Diagnostic;
use dtacheck::diag::LabelStyle;
use dtacheck::diag::Severity;
use dtacheck::lexer::Span;
use dtacheck::lexer::lex;
use dtacheck::linter::Function;
use dtacheck::linter::lint_file;
use dtacheck::linter::lint_preproc;
use dtacheck::linter::lint_source;
use dtacheck::linter::lint_switch_fallthrough;
use dtacheck::parser::Node;
use dtacheck::parser::NodeKind;
use dtacheck::parser::parse;
use dtacheck::table::load_funcs;

fn parse_ok(text: &[u8]) -> Vec<Node> {
    let tokens = lex(text);
    let (res, diags) = parse(&tokens);
    assert!(diags.is_empty());
    res.unwrap()
}

fn set_table() -> Function {
    let mut funcs = Function::default();
    funcs.insert(&[b"set".to_vec()], 1, 1);
    funcs
}

#[test]
fn arity_in_bounds_is_clean() {
    let ast = parse_ok(b"{set $x}");
    let diags = lint_file(&ast, &set_table());
    assert!(diags.is_empty());
}

#[test]
fn arity_too_few_arguments() {
    let ast = parse_ok(b"{set}");
    let diags = lint_file(&ast, &set_table());
    assert_eq!(diags.len(), 1);
    assert_eq!(diags[0].severity, Severity::Error);
    assert_eq!(diags[0].message, b"calling `set` with too few arguments".to_vec());
    assert_eq!(diags[0].labels.len(), 1);
    assert_eq!(diags[0].labels[0].style, LabelStyle::Primary);
    assert_eq!(diags[0].labels[0].span, Span { start: 0, end: 5 });
    assert_eq!(diags[0].labels[0].message, b"not enough arguments".to_vec());
}

#[test]
fn arity_too_many_arguments() {
    let ast = parse_ok(b"{set a b c}");
    let diags = lint_file(&ast, &set_table());
    assert_eq!(diags.len(), 1);
    assert_eq!(diags[0].message, b"calling `set` with too many arguments".to_vec());
    assert_eq!(diags[0].labels[0].message, b"too many arguments".to_vec());
    assert_eq!(diags[0].labels[0].span, Span { start: 0, end: 11 });
}

#[test]
fn arity_joins_multi_word_names() {
    let mut funcs = Function::default();
    funcs.insert(&[b"obj".to_vec(), b"prop".to_vec()], 0, 0);
    let ast = parse_ok(b"{obj prop extra}");
    let diags = lint_file(&ast, &funcs);
    assert_eq!(diags.len(), 1);
    assert_eq!(diags[0].message, b"calling `obj prop` with too many arguments".to_vec());
}

#[test]
fn arity_unknown_command_is_unbounded() {
    let funcs = Function::default();
    let ast = parse_ok(b"{foo bar baz qux}");
    let diags = lint_file(&ast, &funcs);
    assert!(diags.is_empty());
}

#[test]
fn arity_skips_statements_with_preprocessor_children() {
    let ast = parse_ok(b"{set #autorun x y}");
    let diags = lint_file(&ast, &set_table());
    assert!(diags.is_empty());
}

#[test]
fn arity_checks_nested_statements() {
    let ast = parse_ok(b"(do {set})");
    let diags = lint_file(&ast, &set_table());
    assert_eq!(diags.len(), 1);
    assert_eq!(diags[0].labels[0].span, Span { start: 4, end: 9 });
}

#[test]
fn lookup_reaches_the_inserted_bounds() {
    let funcs = set_table();
    let ast = parse_ok(b"{set $x}");
    match &ast[0].kind {
        NodeKind::Stmt(children) => {
            let (node, depth) = funcs.lookup(children);
            assert_eq!(depth, 1);
            assert_eq!(node.min_args, 1);
            assert_eq!(node.max_args, 1);
        }
        other => panic!("expected a statement, got {:?}", other),
    }
}

#[test]
fn function_default_is_unbounded() {
    let f = Function::default();
    assert_eq!(f.min_args, 0);
    assert_eq!(f.max_args, usize::MAX);
    assert!(f.children.is_empty());
}

#[test]
fn preproc_double_else_is_extraneous() {
    let tokens = lex(b"#ifdef A #else #else #endif");
    let diags = lint_preproc(&tokens);
    assert_eq!(diags.len(), 1);
    assert_eq!(diags[0].severity, Severity::Error);
    assert_eq!(diags[0].message, b"extraneous directive".to_vec());
    assert_eq!(diags[0].labels[0].span, Span { start: 15, end: 20 });
}

#[test]
fn preproc_unclosed_ifdef_is_unmatched() {
    let tokens = lex(b"#ifdef A");
    let diags = lint_preproc(&tokens);
    assert_eq!(diags.len(), 1);
    assert_eq!(diags[0].message, b"unmatched directive".to_vec());
    assert_eq!(diags[0].labels[0].span, Span { start: 0, end: 6 });
}

#[test]
fn preproc_balanced_pair_is_clean() {
    let tokens = lex(b"#ifdef A #else b #endif #ifndef C #endif");
    let diags = lint_preproc(&tokens);
    assert!(diags.is_empty());
}

#[test]
fn preproc_stray_else_and_endif_are_extraneous() {
    let tokens = lex(b"#else #endif");
    let diags = lint_preproc(&tokens);
    assert_eq!(diags.len(), 2);
    assert_eq!(diags[0].labels[0].span, Span { start: 0, end: 5 });
    assert_eq!(diags[1].labels[0].span, Span { start: 6, end: 12 });
}

#[test]
fn switch_with_trailing_array_warns() {
    let ast = parse_ok(b"{switch $x (1 {a}) (2 {b})}");
    let diags = lint_switch_fallthrough(&ast);
    assert_eq!(diags.len(), 1);
    assert_eq!(diags[0].severity, Severity::Warning);
    assert_eq!(diags[0].message, b"missing fallthrough for switch".to_vec());
    assert_eq!(diags[0].labels.len(), 2);
    assert_eq!(diags[0].labels[0].style, LabelStyle::Primary);
    assert_eq!(diags[0].labels[0].span, Span { start: 0, end: 27 });
    assert_eq!(diags[0].labels[1].style, LabelStyle::Secondary);
    assert_eq!(diags[0].labels[1].span, Span { start: 26, end: 26 });
    assert_eq!(
        diags[0].labels[1].message,
        b"consider adding a fallthrough node here".to_vec()
    );
}

#[test]
fn switch_with_non_array_tail_is_clean() {
    let ast = parse_ok(b"{switch $x (1 {a}) 2}");
    let diags = lint_switch_fallthrough(&ast);
    assert!(diags.is_empty());
}

#[test]
fn load_funcs_builds_the_trie() {
    let table = b"# comment line\nset 1 1\nobj prop 0 2\nshort 1\n";
    let funcs = load_funcs(table).unwrap();
    let ast = parse_ok(b"{set}");
    let diags = lint_file(&ast, &funcs);
    assert_eq!(diags.len(), 1);
    assert_eq!(diags[0].message, b"calling `set` with too few arguments".to_vec());
    let ast2 = parse_ok(b"{obj prop a b c}");
    let diags2 = lint_file(&ast2, &funcs);
    assert_eq!(diags2.len(), 1);
    assert_eq!(diags2[0].message, b"calling `obj prop` with too many arguments".to_vec());
}

#[test]
fn load_funcs_rejects_non_numeric_bounds() {
    assert!(load_funcs(b"set 1 x\n").is_none());
    assert!(load_funcs(b"set x 1\n").is_none());
}

#[test]
fn load_funcs_skips_short_and_comment_lines() {
    let funcs = load_funcs(b"# set 1 x\nab 1\n\n").unwrap();
    assert!(funcs.children.is_empty());
}

fn messages(diags: &[Diagnostic]) -> Vec<Vec<u8>> {
    diags.iter().map(|d| d.message.clone()).collect()
}

#[test]
fn lint_source_orders_the_passes() {
    let funcs = set_table();
    let diags = lint_source(b"#ifdef A\n{set}\n", &funcs);
    assert_eq!(
        messages(&diags),
        vec![
            b"calling `set` with too few arguments".to_vec(),
            b"unmatched directive".to_vec(),
        ]
    );
}

#[test]
fn lint_source_on_fatal_parse_keeps_token_level_passes() {
    let funcs = set_table();
    let diags = lint_source(b"#ifdef A )", &funcs);
    assert_eq!(
        messages(&diags),
        vec![b"unexpected token".to_vec(), b"unmatched directive".to_vec()]
    );
}

#[test]
fn lint_source_full_pipeline() {
    let funcs = set_table();
    let diags = lint_source(b"{set $x} {switch $y (1)} #endif", &funcs);
    assert_eq!(
        messages(&diags),
        vec![
            b"extraneous directive".to_vec(),
            b"missing fallthrough for switch".to_vec(),
        ]
    );
}
