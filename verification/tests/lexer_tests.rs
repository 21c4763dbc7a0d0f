use dtacheck::lexer::Span;
use dtacheck::lexer::Token;
use dtacheck::lexer::TokenKind;
use dtacheck::lexer::lex;

fn kinds(tokens: &[Token]) -> Vec<&TokenKind> {
    tokens.iter().map(|t| &t.kind).collect()
}

#[test]
fn lex_empty_input_yields_one_eof() {
    let tokens = lex(b"");
    assert_eq!(tokens.len(), 1);
    assert!(matches!(tokens[0].kind, TokenKind::Eof));
    assert_eq!(tokens[0].span, Span { start: 0, end: 0 });
}

#[test]
fn lex_ends_with_eof_after_last_token() {
    let tokens = lex(b"ab  ");
    assert_eq!(tokens.len(), 2);
    assert!(matches!(tokens[0].kind, TokenKind::Sym(ref s) if s == b"ab"));
    assert_eq!(tokens[0].span, Span { start: 0, end: 2 });
    assert!(matches!(tokens[1].kind, TokenKind::Eof));
    assert_eq!(tokens[1].span, Span { start: 2, end: 2 });
}

#[test]
fn lex_eof_at_zero_for_whitespace_only() {
    let tokens = lex(b"   \n\t ");
    assert_eq!(tokens.len(), 1);
    assert!(matches!(tokens[0].kind, TokenKind::Eof));
    assert_eq!(tokens[0].span, Span { start: 0, end: 0 });
}

#[test]
fn lex_spans_are_ordered_and_disjoint() {
    let tokens = lex(b"(foo 12 $bar \"s t\" ; note\n 1.5)");
    for t in &tokens {
        assert!(t.span.start <= t.span.end);
    }
    for w in tokens.windows(2) {
        assert!(w[0].span.end <= w[1].span.start);
    }
}

#[test]
fn lex_keywords() {
    let tokens = lex(b"#ifdef #else #endif #define #merge #ifndef #autorun #undef kDataUnhandled");
    let ks = kinds(&tokens);
    assert!(matches!(ks[0], TokenKind::IfDef));
    assert!(matches!(ks[1], TokenKind::Else));
    assert!(matches!(ks[2], TokenKind::EndIf));
    assert!(matches!(ks[3], TokenKind::Define));
    assert!(matches!(ks[4], TokenKind::Merge));
    assert!(matches!(ks[5], TokenKind::IfNDef));
    assert!(matches!(ks[6], TokenKind::Autorun));
    assert!(matches!(ks[7], TokenKind::UnDef));
    assert!(matches!(ks[8], TokenKind::Unhandled));
    assert!(matches!(ks[9], TokenKind::Eof));
}

#[test]
fn lex_file_insertion_keyword() {
    let mut input = b"#inclu".to_vec();
    input.extend_from_slice(b"de songs");
    let tokens = lex(&input);
    assert_eq!(tokens.len(), 3);
    assert!(matches!(tokens[0].kind, TokenKind::Incl));
    assert!(matches!(tokens[1].kind, TokenKind::Sym(ref s) if s == b"songs"));
}

#[test]
fn lex_keyword_prefix_is_a_symbol() {
    let tokens = lex(b"#ifdefx");
    assert!(matches!(tokens[0].kind, TokenKind::Sym(ref s) if s == b"#ifdefx"));
}

#[test]
fn lex_brackets() {
    let tokens = lex(b"()[]{}");
    let ks = kinds(&tokens);
    assert!(matches!(ks[0], TokenKind::LParen));
    assert!(matches!(ks[1], TokenKind::RParen));
    assert!(matches!(ks[2], TokenKind::LBracket));
    assert!(matches!(ks[3], TokenKind::RBracket));
    assert!(matches!(ks[4], TokenKind::LBrace));
    assert!(matches!(ks[5], TokenKind::RBrace));
    assert!(matches!(ks[6], TokenKind::Eof));
    assert_eq!(tokens[3].span, Span { start: 3, end: 4 });
}

#[test]
fn lex_integers() {
    let tokens = lex(b"12 +34 -56");
    assert!(matches!(tokens[0].kind, TokenKind::Int(12)));
    assert!(matches!(tokens[1].kind, TokenKind::Int(34)));
    assert!(matches!(tokens[2].kind, TokenKind::Int(-56)));
}

#[test]
fn lex_integer_range_edges() {
    let tokens = lex(b"2147483647 -2147483648 2147483648 -2147483649");
    assert!(matches!(tokens[0].kind, TokenKind::Int(2147483647)));
    assert!(matches!(tokens[1].kind, TokenKind::Int(-2147483648)));
    assert!(matches!(tokens[2].kind, TokenKind::Invalid));
    assert!(matches!(tokens[3].kind, TokenKind::Invalid));
}

#[test]
fn lex_floats_keep_their_text() {
    let tokens = lex(b"1.5 -2.75 1.2.3");
    assert!(matches!(tokens[0].kind, TokenKind::Float(ref s) if s == b"1.5"));
    assert!(matches!(tokens[1].kind, TokenKind::Float(ref s) if s == b"-2.75"));
    assert!(matches!(tokens[2].kind, TokenKind::Sym(ref s) if s == b"1.2.3"));
}

#[test]
fn lex_variables() {
    let tokens = lex(b"$foo $foo-bar $");
    assert!(matches!(tokens[0].kind, TokenKind::Var(ref s) if s == b"$foo"));
    assert!(matches!(tokens[1].kind, TokenKind::Sym(ref s) if s == b"$foo-bar"));
    assert!(matches!(tokens[2].kind, TokenKind::Sym(ref s) if s == b"$"));
}

#[test]
fn lex_quoted_symbol_strips_quotes() {
    let tokens = lex(b"'a b'");
    assert!(matches!(tokens[0].kind, TokenKind::Sym(ref s) if s == b"a b"));
    assert_eq!(tokens[0].span, Span { start: 0, end: 5 });
}

#[test]
fn lex_quoted_string_strips_quotes() {
    let tokens = lex(b"\"hi there\"");
    assert!(matches!(tokens[0].kind, TokenKind::Str(ref s) if s == b"hi there"));
}

#[test]
fn lex_quote_loses_to_longer_bare_run() {
    let tokens = lex(b"\"ab\"cd");
    assert!(matches!(tokens[0].kind, TokenKind::Sym(ref s) if s == b"\"ab\"cd"));
}

#[test]
fn lex_unclosed_quote_is_a_symbol() {
    let tokens = lex(b"\"abc");
    assert!(matches!(tokens[0].kind, TokenKind::Sym(ref s) if s == b"\"abc"));
}

#[test]
fn lex_comment_runs_to_end_of_line() {
    let tokens = lex(b"1 ; two three\n2");
    assert_eq!(tokens.len(), 3);
    assert!(matches!(tokens[0].kind, TokenKind::Int(1)));
    assert!(matches!(tokens[1].kind, TokenKind::Int(2)));
}

#[test]
fn lex_semicolon_inside_run_stays_in_the_symbol() {
    let tokens = lex(b"ab;cd");
    assert!(matches!(tokens[0].kind, TokenKind::Sym(ref s) if s == b"ab;cd"));
}

#[test]
fn lex_quoted_string_may_cross_whitespace_and_brackets() {
    let tokens = lex(b"\"a (b\nc\"");
    assert!(matches!(tokens[0].kind, TokenKind::Str(ref s) if s == b"a (b\nc"));
    assert_eq!(tokens[0].span, Span { start: 0, end: 8 });
}

#[test]
fn lex_run_ends_at_brackets() {
    let tokens = lex(b"foo(bar)");
    assert!(matches!(tokens[0].kind, TokenKind::Sym(ref s) if s == b"foo"));
    assert!(matches!(tokens[1].kind, TokenKind::LParen));
    assert!(matches!(tokens[2].kind, TokenKind::Sym(ref s) if s == b"bar"));
    assert!(matches!(tokens[3].kind, TokenKind::RParen));
}

#[test]
fn lex_bare_sign_and_hash_are_symbols() {
    let tokens = lex(b"+ - #");
    assert!(matches!(tokens[0].kind, TokenKind::Sym(ref s) if s == b"+"));
    assert!(matches!(tokens[1].kind, TokenKind::Sym(ref s) if s == b"-"));
    assert!(matches!(tokens[2].kind, TokenKind::Sym(ref s) if s == b"#"));
}

#[test]
fn lex_empty_quotes_fall_back_to_a_symbol() {
    let tokens = lex(b"''");
    assert!(matches!(tokens[0].kind, TokenKind::Sym(ref s) if s == b"''"));
}
