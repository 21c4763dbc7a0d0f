//! Tokenizer for the script language.
//!
//! `lex` turns raw bytes into a flat token stream with byte spans.  Lexing is
//! total: unrecognizable lexemes become `Invalid` tokens, whitespace and
//! line comments are dropped, and the stream always ends with a single
//! synthetic end-of-input token whose empty span sits right after the last
//! emitted token (or at 0).
use vstd::prelude::*;

verus! {

/// A half-open byte range into the source text.
#[derive(Clone, Copy, Debug, PartialEq, Eq, Structural)]
pub struct Span {
    pub start: usize,
    pub end: usize,
}

/// The kind of one lexical token: fixed keyword and punctuation tokens,
/// literals carrying their bytes, an `Invalid` marker for unusable lexemes,
/// and the synthetic end-of-input marker.
#[derive(Debug)]
pub enum TokenKind {
    Unhandled,
    IfDef,
    Else,
    EndIf,
    LParen,
    RParen,
    LBrace,
    RBrace,
    LBracket,
    RBracket,
    Define,
    Incl,
    Merge,
    IfNDef,
    Autorun,
    UnDef,
    Int(i32),
    Float(Vec<u8>),
    Var(Vec<u8>),
    Sym(Vec<u8>),
    Str(Vec<u8>),
    Invalid,
    Eof,
}

/// One token: its kind and its half-open byte span in the source.
#[derive(Debug)]
pub struct Token {
    pub kind: TokenKind,
    pub span: Span,
}

/// Mathematical mirror of `TokenKind`, with byte contents as sequences.
pub ghost enum TokenKindV {
    Unhandled,
    IfDef,
    Else,
    EndIf,
    LParen,
    RParen,
    LBrace,
    RBrace,
    LBracket,
    RBracket,
    Define,
    Incl,
    Merge,
    IfNDef,
    Autorun,
    UnDef,
    Int(i32),
    Float(Seq<u8>),
    Var(Seq<u8>),
    Sym(Seq<u8>),
    Str(Seq<u8>),
    Invalid,
    Eof,
}

pub ghost struct TokenV {
    pub kind: TokenKindV,
    pub span: Span,
}

impl View for TokenKind {
    type V = TokenKindV;

    open spec fn view(&self) -> TokenKindV {
        match self {
            TokenKind::Unhandled => TokenKindV::Unhandled,
            TokenKind::IfDef => TokenKindV::IfDef,
            TokenKind::Else => TokenKindV::Else,
            TokenKind::EndIf => TokenKindV::EndIf,
            TokenKind::LParen => TokenKindV::LParen,
            TokenKind::RParen => TokenKindV::RParen,
            TokenKind::LBrace => TokenKindV::LBrace,
            TokenKind::RBrace => TokenKindV::RBrace,
            TokenKind::LBracket => TokenKindV::LBracket,
            TokenKind::RBracket => TokenKindV::RBracket,
            TokenKind::Define => TokenKindV::Define,
            TokenKind::Incl => TokenKindV::Incl,
            TokenKind::Merge => TokenKindV::Merge,
            TokenKind::IfNDef => TokenKindV::IfNDef,
            TokenKind::Autorun => TokenKindV::Autorun,
            TokenKind::UnDef => TokenKindV::UnDef,
            TokenKind::Int(v) => TokenKindV::Int(*v),
            TokenKind::Float(s) => TokenKindV::Float(s@),
            TokenKind::Var(s) => TokenKindV::Var(s@),
            TokenKind::Sym(s) => TokenKindV::Sym(s@),
            TokenKind::Str(s) => TokenKindV::Str(s@),
            TokenKind::Invalid => TokenKindV::Invalid,
            TokenKind::Eof => TokenKindV::Eof,
        }
    }
}

impl View for Token {
    type V = TokenV;

    open spec fn view(&self) -> TokenV {
        TokenV { kind: self.kind@, span: self.span }
    }
}

/// The token views of a token sequence.
pub open spec fn tokens_view(s: Seq<Token>) -> Seq<TokenV> {
    s.map_values(|t: Token| t@)
}

// ---------------------------------------------------------------------------
// Byte classes
// ---------------------------------------------------------------------------

/// Whitespace: space, tab, newline, carriage return, form feed.
pub open spec fn is_ws_byte(c: u8) -> bool {
    c == 32 || c == 9 || c == 10 || c == 13 || c == 12
}

/// One of the six bracket delimiters.
pub open spec fn is_delim_byte(c: u8) -> bool {
    c == 40 || c == 41 || c == 91 || c == 93 || c == 123 || c == 125
}

/// A byte that may appear in a bare lexeme.
pub open spec fn is_sym_byte(c: u8) -> bool {
    !is_ws_byte(c) && !is_delim_byte(c)
}

pub open spec fn is_digit_byte(c: u8) -> bool {
    48 <= c <= 57
}

pub open spec fn is_sign_byte(c: u8) -> bool {
    c == 43 || c == 45
}

/// A byte allowed after the `$` sigil of a variable reference.
pub open spec fn is_var_byte(c: u8) -> bool {
    is_digit_byte(c) || (97 <= c <= 122) || (65 <= c <= 90) || c == 95
}

// ---------------------------------------------------------------------------
// Scanning measures
// ---------------------------------------------------------------------------

/// Length of the maximal run of lexeme bytes starting at `i`.
pub open spec fn run_len(d: Seq<u8>, i: int) -> nat
    decreases d.len() - i,
{
    if 0 <= i < d.len() && is_sym_byte(d[i]) {
        1 + run_len(d, i + 1)
    } else {
        0
    }
}

/// Length of the maximal run of non-newline bytes starting at `i`.
pub open spec fn comment_len(d: Seq<u8>, i: int) -> nat
    decreases d.len() - i,
{
    if 0 <= i < d.len() && d[i] != 10 {
        1 + comment_len(d, i + 1)
    } else {
        0
    }
}

/// Index of the first occurrence of `q` at or after `i`, or `d.len()`.
pub open spec fn find_from(d: Seq<u8>, i: int, q: u8) -> int
    decreases d.len() - i,
{
    if 0 <= i < d.len() {
        if d[i] == q {
            i
        } else {
            find_from(d, i + 1, q)
        }
    } else {
        d.len() as int
    }
}

pub proof fn lemma_run_len(d: Seq<u8>, i: int)
    requires
        0 <= i <= d.len(),
    ensures
        i + run_len(d, i) <= d.len(),
        forall|k: int| i <= k < i + run_len(d, i) ==> is_sym_byte(d[k]),
        i + run_len(d, i) < d.len() ==> !is_sym_byte(d[i + run_len(d, i)]),
        i < d.len() && is_sym_byte(d[i]) ==> run_len(d, i) >= 1,
    decreases d.len() - i,
{
    if i < d.len() && is_sym_byte(d[i]) {
        lemma_run_len(d, i + 1);
    }
}

pub proof fn lemma_comment_len(d: Seq<u8>, i: int)
    requires
        0 <= i <= d.len(),
    ensures
        i + comment_len(d, i) <= d.len(),
        forall|k: int| i <= k < i + comment_len(d, i) ==> d[k] != 10,
        i + comment_len(d, i) < d.len() ==> d[i + comment_len(d, i)] == 10,
        i < d.len() && d[i] != 10 ==> comment_len(d, i) >= 1,
    decreases d.len() - i,
{
    if i < d.len() && d[i] != 10 {
        lemma_comment_len(d, i + 1);
    }
}

pub proof fn lemma_find_from(d: Seq<u8>, i: int, q: u8)
    requires
        0 <= i <= d.len(),
    ensures
        i <= find_from(d, i, q) <= d.len(),
        find_from(d, i, q) < d.len() ==> d[find_from(d, i, q)] == q,
        forall|k: int| i <= k < find_from(d, i, q) ==> d[k] != q,
    decreases d.len() - i,
{
    if i < d.len() && d[i] != q {
        lemma_find_from(d, i + 1, q);
    }
}

// ---------------------------------------------------------------------------
// Lexeme classification
// ---------------------------------------------------------------------------

pub open spec fn all_digits(s: Seq<u8>) -> bool {
    forall|k: int| 0 <= k < s.len() ==> is_digit_byte(s[k])
}

/// An optionally signed decimal integer literal.
pub open spec fn is_int_lexeme(s: Seq<u8>) -> bool {
    s.len() > 0 && if is_sign_byte(s[0]) {
        s.len() >= 2 && all_digits(s.subrange(1, s.len() as int))
    } else {
        all_digits(s)
    }
}

/// Value of a digit string, most significant digit first.
pub open spec fn digits_val(s: Seq<u8>) -> int
    decreases s.len(),
{
    if s.len() == 0 {
        0
    } else {
        digits_val(s.drop_last()) * 10 + (s.last() - 48)
    }
}

/// Signed value of an integer lexeme.
pub open spec fn int_lexeme_val(s: Seq<u8>) -> int {
    if s.len() > 0 && is_sign_byte(s[0]) {
        let m = digits_val(s.subrange(1, s.len() as int));
        if s[0] == 45 {
            -m
        } else {
            m
        }
    } else {
        digits_val(s)
    }
}

pub open spec fn i32_fits(v: int) -> bool {
    -0x8000_0000 <= v <= 0x7fff_ffff
}

/// An optionally signed decimal literal with a required fractional part.
pub open spec fn is_float_lexeme(s: Seq<u8>) -> bool {
    let off: int = if s.len() > 0 && is_sign_byte(s[0]) {
        1
    } else {
        0
    };
    let t = s.subrange(off, s.len() as int);
    let j = find_from(t, 0, 46);
    &&& 1 <= j
    &&& j + 2 <= t.len()
    &&& all_digits(t.subrange(0, j))
    &&& all_digits(t.subrange(j + 1, t.len() as int))
}

/// A `$`-sigiled identifier.
pub open spec fn is_var_lexeme(s: Seq<u8>) -> bool {
    s.len() >= 2 && s[0] == 36 && forall|k: int| 1 <= k < s.len() ==> is_var_byte(s[k])
}

/// The bytes of `kDataUnhandled`.
pub open spec fn kw_unhandled() -> Seq<u8> {
    seq![107u8, 68u8, 97u8, 116u8, 97u8, 85u8, 110u8, 104u8, 97u8, 110u8, 100u8, 108u8, 101u8,
        100u8]
}

/// The bytes of `#ifdef`.
pub open spec fn kw_ifdef() -> Seq<u8> {
    seq![35u8, 105u8, 102u8, 100u8, 101u8, 102u8]
}

/// The bytes of `#else`.
pub open spec fn kw_else() -> Seq<u8> {
    seq![35u8, 101u8, 108u8, 115u8, 101u8]
}

/// The bytes of `#endif`.
pub open spec fn kw_endif() -> Seq<u8> {
    seq![35u8, 101u8, 110u8, 100u8, 105u8, 102u8]
}

/// The bytes of `#define`.
pub open spec fn kw_define() -> Seq<u8> {
    seq![35u8, 100u8, 101u8, 102u8, 105u8, 110u8, 101u8]
}

/// The bytes of the file-insertion directive keyword.
pub open spec fn kw_incl() -> Seq<u8> {
    seq![35u8, 105u8, 110u8, 99u8, 108u8, 117u8, 100u8, 101u8]
}

/// The bytes of `#merge`.
pub open spec fn kw_merge() -> Seq<u8> {
    seq![35u8, 109u8, 101u8, 114u8, 103u8, 101u8]
}

/// The bytes of `#ifndef`.
pub open spec fn kw_ifndef() -> Seq<u8> {
    seq![35u8, 105u8, 102u8, 110u8, 100u8, 101u8, 102u8]
}

/// The bytes of `#autorun`.
pub open spec fn kw_autorun() -> Seq<u8> {
    seq![35u8, 97u8, 117u8, 116u8, 111u8, 114u8, 117u8, 110u8]
}

/// The bytes of `#undef`.
pub open spec fn kw_undef() -> Seq<u8> {
    seq![35u8, 117u8, 110u8, 100u8, 101u8, 102u8]
}

/// Classification of a maximal bare lexeme: exact keywords first, then
/// numeric literals, then variable references, then the symbol catch-all.
/// An integer literal outside the 32-bit range is an `Invalid` token.
pub open spec fn run_token_kind(s: Seq<u8>) -> TokenKindV {
    if s == kw_unhandled() {
        TokenKindV::Unhandled
    } else if s == kw_ifdef() {
        TokenKindV::IfDef
    } else if s == kw_else() {
        TokenKindV::Else
    } else if s == kw_endif() {
        TokenKindV::EndIf
    } else if s == kw_define() {
        TokenKindV::Define
    } else if s == kw_incl() {
        TokenKindV::Incl
    } else if s == kw_merge() {
        TokenKindV::Merge
    } else if s == kw_ifndef() {
        TokenKindV::IfNDef
    } else if s == kw_autorun() {
        TokenKindV::Autorun
    } else if s == kw_undef() {
        TokenKindV::UnDef
    } else if is_int_lexeme(s) {
        if i32_fits(int_lexeme_val(s)) {
            TokenKindV::Int(int_lexeme_val(s) as i32)
        } else {
            TokenKindV::Invalid
        }
    } else if is_float_lexeme(s) {
        TokenKindV::Float(s)
    } else if is_var_lexeme(s) {
        TokenKindV::Var(s)
    } else {
        TokenKindV::Sym(s)
    }
}

// ---------------------------------------------------------------------------
// The lexing function, specification level
// ---------------------------------------------------------------------------

/// The tokens lexed from position `i` on, `last_end` being the end offset of
/// the last token already emitted.  Whitespace is dropped one byte at a time;
/// a `;` at the start of a lexeme drops the rest of its line; a quoted run is
/// taken whenever it closes, is nonempty and reaches at least as far as the
/// bare lexeme starting at the same quote.
pub open spec fn spec_lex_at(d: Seq<u8>, i: int, last_end: usize) -> Seq<TokenV>
    decreases d.len() - i,
    via spec_lex_at_dec
{
    if !(0 <= i < d.len()) {
        seq![TokenV { kind: TokenKindV::Eof, span: Span { start: last_end, end: last_end } }]
    } else {
        let c = d[i];
        if is_ws_byte(c) {
            spec_lex_at(d, i + 1, last_end)
        } else if is_delim_byte(c) {
            let kind = if c == 40 {
                TokenKindV::LParen
            } else if c == 41 {
                TokenKindV::RParen
            } else if c == 91 {
                TokenKindV::LBracket
            } else if c == 93 {
                TokenKindV::RBracket
            } else if c == 123 {
                TokenKindV::LBrace
            } else {
                TokenKindV::RBrace
            };
            seq![TokenV { kind, span: Span { start: i as usize, end: (i + 1) as usize } }]
                + spec_lex_at(d, i + 1, (i + 1) as usize)
        } else if c == 59 {
            spec_lex_at(d, i + comment_len(d, i), last_end)
        } else {
            let l = run_len(d, i) as int;
            let q = find_from(d, i + 1, c);
            if (c == 34 || c == 39) && q < d.len() && i + 2 <= q && l <= q + 1 - i {
                let content = d.subrange(i + 1, q);
                let kind = if c == 34 {
                    TokenKindV::Str(content)
                } else {
                    TokenKindV::Sym(content)
                };
                seq![TokenV { kind, span: Span { start: i as usize, end: (q + 1) as usize } }]
                    + spec_lex_at(d, q + 1, (q + 1) as usize)
            } else {
                seq![
                    TokenV {
                        kind: run_token_kind(d.subrange(i, i + l)),
                        span: Span { start: i as usize, end: (i + l) as usize },
                    },
                ] + spec_lex_at(d, i + l, (i + l) as usize)
            }
        }
    }
}

#[via_fn]
proof fn spec_lex_at_dec(d: Seq<u8>, i: int, last_end: usize) {
    if 0 <= i < d.len() {
        lemma_run_len(d, i);
        lemma_comment_len(d, i);
        lemma_find_from(d, i + 1, d[i]);
    }
}

/// The full token stream of a source text.
pub open spec fn spec_lex(d: Seq<u8>) -> Seq<TokenV> {
    spec_lex_at(d, 0, 0)
}

// ---------------------------------------------------------------------------
// Executable helpers
// ---------------------------------------------------------------------------

/// Byte-for-byte equality of two slices.
pub fn bytes_eq(a: &[u8], b: &[u8]) -> (r: bool)
    ensures
        r == (a@ == b@),
{
    if a.len() != b.len() {
        return false;
    }
    let mut k: usize = 0;
    while k < a.len()
        invariant
            k <= a.len(),
            a@.len() == b@.len(),
            forall|j: int| 0 <= j < k ==> a@[j] == b@[j],
        decreases a.len() - k,
    {
        if a[k] != b[k] {
            return false;
        }
        k = k + 1;
    }
    proof {
        assert(a@ =~= b@);
    }
    true
}

/// A fresh copy of `data[a..b]`.
pub(crate) fn copy_range(data: &[u8], a: usize, b: usize) -> (r: Vec<u8>)
    requires
        a <= b <= data@.len(),
    ensures
        r@ == data@.subrange(a as int, b as int),
{
    vstd::slice::slice_to_vec(vstd::slice::slice_subrange(data, a, b))
}

fn is_ws(c: u8) -> (r: bool)
    ensures
        r == is_ws_byte(c),
{
    c == 32 || c == 9 || c == 10 || c == 13 || c == 12
}

fn is_delim(c: u8) -> (r: bool)
    ensures
        r == is_delim_byte(c),
{
    c == 40 || c == 41 || c == 91 || c == 93 || c == 123 || c == 125
}

fn is_sym(c: u8) -> (r: bool)
    ensures
        r == is_sym_byte(c),
{
    !is_ws(c) && !is_delim(c)
}

fn is_digit(c: u8) -> (r: bool)
    ensures
        r == is_digit_byte(c),
{
    48 <= c && c <= 57
}

fn digit_at(sv: &Vec<u8>, i: usize) -> (r: bool)
    requires
        i < sv@.len(),
    ensures
        r == is_digit_byte(sv@[i as int]),
{
    let c = sv[i];
    48 <= c && c <= 57
}

fn is_var_ch(c: u8) -> (r: bool)
    ensures
        r == is_var_byte(c),
{
    is_digit(c) || (97 <= c && c <= 122) || (65 <= c && c <= 90) || c == 95
}

/// Signed 32-bit value of an integer lexeme, or `None` if it overflows.
fn int_lexeme_value(sv: &Vec<u8>) -> (r: Option<i32>)
    requires
        is_int_lexeme(sv@),
    ensures
        match r {
            Some(v) => i32_fits(int_lexeme_val(sv@)) && v == int_lexeme_val(sv@),
            None => !i32_fits(int_lexeme_val(sv@)),
        },
{
    let ghost s = sv@;
    let n = sv.len();
    let c0 = sv[0];
    let neg = c0 == 45;
    let off: usize = if c0 == 43 || c0 == 45 {
        1
    } else {
        0
    };
    let ghost digs = s.subrange(off as int, n as int);
    let mut mag: u64 = 0;
    let mut over = false;
    let mut k: usize = off;
    while k < n
        invariant
            off <= k <= n,
            n == s.len(),
            sv@ == s,
            digs == s.subrange(off as int, n as int),
            all_digits(digs),
            off < n,
            !over ==> mag == digits_val(s.subrange(off as int, k as int)) && mag <= 0x8000_0000,
            over ==> digits_val(s.subrange(off as int, k as int)) > 0x8000_0000,
        decreases n - k,
    {
        let d = sv[k];
        proof {
            assert(digs[k - off] == s[k as int]);
            assert(is_digit_byte(d));
            assert(s.subrange(off as int, k + 1).drop_last() =~= s.subrange(off as int, k as int));
            assert(s.subrange(off as int, k + 1).last() == d);
            assert(digits_val(s.subrange(off as int, k + 1)) == digits_val(
                s.subrange(off as int, k as int),
            ) * 10 + (d - 48));
            if over {
                lemma_digits_val_nonneg(s.subrange(off as int, k as int));
            }
        }
        if !over {
            let m2: u64 = mag * 10 + ((d - 48) as u64);
            if m2 > 0x8000_0000 {
                over = true;
            } else {
                mag = m2;
            }
        }
        k = k + 1;
    }
    proof {
        assert(s.subrange(off as int, n as int) =~= digs);
        if off == 1 {
            assert(int_lexeme_val(s) == if s[0] == 45 {
                -digits_val(digs)
            } else {
                digits_val(digs)
            });
        } else {
            assert(!is_sign_byte(s[0]));
            assert(int_lexeme_val(s) == digits_val(s));
            assert(s.subrange(0, n as int) =~= s);
        }
    }
    if over {
        return None;
    }
    if neg {
        if mag > 0x8000_0000 {
            None
        } else if mag == 0x8000_0000 {
            Some(i32::MIN)
        } else {
            Some(-((mag as u32) as i32))
        }
    } else {
        if mag > 0x7fff_ffff {
            None
        } else {
            Some((mag as u32) as i32)
        }
    }
}

pub proof fn lemma_digits_val_nonneg(s: Seq<u8>)
    requires
        all_digits(s),
    ensures
        digits_val(s) >= 0,
    decreases s.len(),
{
    if s.len() > 0 {
        assert(all_digits(s.drop_last()));
        lemma_digits_val_nonneg(s.drop_last());
    }
}

/// Classification of a bare lexeme, mirroring `run_token_kind`.
fn classify_run(sv: &Vec<u8>) -> (k: TokenKind)
    requires
        sv@.len() >= 1,
    ensures
        k@ == run_token_kind(sv@),
{
    let s = sv.as_slice();
    if bytes_eq(s, &[107, 68, 97, 116, 97, 85, 110, 104, 97, 110, 100, 108, 101, 100]) {
        proof {
            assert(kw_unhandled() =~= s@);
        }
        return TokenKind::Unhandled;
    }
    proof {
        assert(sv@ != kw_unhandled()) by {
            if sv@ == kw_unhandled() {
                assert(s@[0] == 107);
            }
        }
    }
    if bytes_eq(s, &[35, 105, 102, 100, 101, 102]) {
        proof {
            assert(kw_ifdef() =~= s@);
        }
        return TokenKind::IfDef;
    }
    if bytes_eq(s, &[35, 101, 108, 115, 101]) {
        proof {
            assert(kw_else() =~= s@);
        }
        return TokenKind::Else;
    }
    if bytes_eq(s, &[35, 101, 110, 100, 105, 102]) {
        proof {
            assert(kw_endif() =~= s@);
        }
        return TokenKind::EndIf;
    }
    if bytes_eq(s, &[35, 100, 101, 102, 105, 110, 101]) {
        proof {
            assert(kw_define() =~= s@);
        }
        return TokenKind::Define;
    }
    if bytes_eq(s, &[35, 105, 110, 99, 108, 117, 100, 101]) {
        proof {
            assert(kw_incl() =~= s@);
        }
        return TokenKind::Incl;
    }
    if bytes_eq(s, &[35, 109, 101, 114, 103, 101]) {
        proof {
            assert(kw_merge() =~= s@);
        }
        return TokenKind::Merge;
    }
    if bytes_eq(s, &[35, 105, 102, 110, 100, 101, 102]) {
        proof {
            assert(kw_ifndef() =~= s@);
        }
        return TokenKind::IfNDef;
    }
    if bytes_eq(s, &[35, 97, 117, 116, 111, 114, 117, 110]) {
        proof {
            assert(kw_autorun() =~= s@);
        }
        return TokenKind::Autorun;
    }
    if bytes_eq(s, &[35, 117, 110, 100, 101, 102]) {
        proof {
            assert(kw_undef() =~= s@);
        }
        return TokenKind::UnDef;
    }
    proof {
        assert(sv@ != kw_ifdef() && sv@ != kw_else() && sv@ != kw_endif() && sv@ != kw_define()
            && sv@ != kw_incl() && sv@ != kw_merge() && sv@ != kw_ifndef() && sv@ != kw_autorun()
            && sv@ != kw_undef());
    }
    let n = sv.len();
    let c0 = sv[0];
    let off: usize = if c0 == 43 || c0 == 45 {
        1
    } else {
        0
    };
    // scan the leading digit run after any sign
    let mut k1: usize = off;
    while k1 < n && digit_at(sv, k1)
        invariant
            off <= k1 <= n,
            n == sv@.len(),
            forall|j: int| off <= j < k1 ==> is_digit_byte(sv@[j]),
        decreases n - k1,
    {
        k1 = k1 + 1;
    }
    let ghost s_ = sv@;
    if off < n && k1 == n {
        // all digits after the sign: an integer literal
        proof {
            assert(all_digits(s_.subrange(off as int, n as int)));
            if off == 0 {
                assert(s_.subrange(0, n as int) =~= s_);
            }
            assert(is_int_lexeme(s_));
        }
        match int_lexeme_value(sv) {
            Some(v) => TokenKind::Int(v),
            None => TokenKind::Invalid,
        }
    } else {
        proof {
            assert(!is_int_lexeme(s_)) by {
                if is_int_lexeme(s_) {
                    if off == 1 {
                        assert(all_digits(s_.subrange(1, n as int)));
                        assert(k1 < n);
                        assert(s_.subrange(1, n as int)[k1 - 1] == s_[k1 as int]);
                    } else {
                        assert(!is_sign_byte(s_[0]));
                        assert(all_digits(s_));
                        if off < n {
                            assert(k1 < n);
                        }
                    }
                }
            }
        }
        let ghost t = s_.subrange(off as int, n as int);
        // a float needs digits, then a dot, then more digits, to the end
        let mut isf = false;
        if off < k1 && k1 < n && sv[k1] == 46 && k1 + 1 < n {
            let mut k2: usize = k1 + 1;
            while k2 < n && digit_at(sv, k2)
                invariant
                    k1 + 1 <= k2 <= n,
                    n == sv@.len(),
                    forall|j: int| k1 + 1 <= j < k2 ==> is_digit_byte(sv@[j]),
                decreases n - k2,
            {
                k2 = k2 + 1;
            }
            isf = k2 == n;
            proof {
                if k2 < n {
                    assert(!is_digit_byte(s_[k2 as int]));
                }
            }
        }
        proof {
            lemma_float_shape(s_, off as int, k1 as int, isf);
        }
        if isf {
            return TokenKind::Float(copy_all(sv));
        }
        // a variable reference: `$` then identifier bytes
        if c0 == 36 && n >= 2 {
            let mut k3: usize = 1;
            let mut isv = true;
            while k3 < n
                invariant
                    1 <= k3 <= n,
                    n == sv@.len(),
                    isv ==> forall|j: int| 1 <= j < k3 ==> is_var_byte(sv@[j]),
                    !isv ==> !is_var_lexeme(sv@),
                decreases n - k3,
            {
                if isv && !is_var_ch(sv[k3]) {
                    isv = false;
                }
                k3 = k3 + 1;
            }
            if isv {
                proof {
                    assert(is_var_lexeme(s_));
                }
                return TokenKind::Var(copy_all(sv));
            }
            return TokenKind::Sym(copy_all(sv));
        }
        proof {
            assert(!is_var_lexeme(s_));
        }
        TokenKind::Sym(copy_all(sv))
    }
}

/// Shows that the executable float scan matches `is_float_lexeme`: `k1` is
/// the end of the leading digit run after the sign at `off`.
proof fn lemma_float_shape(s: Seq<u8>, off: int, k1: int, isf: bool)
    requires
        s.len() >= 1,
        off == if is_sign_byte(s[0]) {
            1int
        } else {
            0int
        },
        off <= k1 <= s.len(),
        forall|j: int| off <= j < k1 ==> is_digit_byte(s[j]),
        k1 < s.len() ==> !is_digit_byte(s[k1]),
        isf == (off < k1 && k1 < s.len() && s[k1] == 46 && k1 + 1 < s.len() && forall|j: int|
            k1 + 1 <= j < s.len() ==> is_digit_byte(s[j])),
    ensures
        isf == is_float_lexeme(s),
{
    let t = s.subrange(off, s.len() as int);
    let j = find_from(t, 0, 46);
    lemma_find_from(t, 0, 46);
    if isf {
        assert(t[k1 - off] == 46);
        assert(forall|k: int| 0 <= k < k1 - off ==> is_digit_byte(t[k]) && t[k] != 46);
        lemma_find_from_exact(t, 0, 46, k1 - off);
        assert(j == k1 - off);
        assert(all_digits(t.subrange(0, j)));
        assert(all_digits(t.subrange(j + 1, t.len() as int)));
        assert(is_float_lexeme(s));
    } else {
        if is_float_lexeme(s) {
            // the first dot must close the leading digit run
            assert(1 <= j && j + 2 <= t.len());
            assert(all_digits(t.subrange(0, j)));
            assert forall|k: int| 0 <= k < j implies is_digit_byte(t[k]) by {
                assert(t.subrange(0, j)[k] == t[k]);
            }
            assert forall|k: int| off <= k < off + j implies is_digit_byte(s[k]) by {
                assert(t[k - off] == s[k]);
            }
            assert(t[j] == 46);
            assert(!is_digit_byte(s[off + j]));
            assert(k1 <= off + j);
            assert(forall|k: int| off <= k < k1 ==> #[trigger] t[k - off] != 46);
            assert(k1 == off + j);
            assert forall|k: int| k1 + 1 <= k < s.len() implies is_digit_byte(s[k]) by {
                assert(t.subrange(j + 1, t.len() as int)[k - off - j - 1] == t[k - off]);
                assert(t[k - off] == s[k]);
            }
            assert(isf);
        }
    }
}

/// If `r` holds `q` and nothing before it does, `find_from` returns `r`.
proof fn lemma_find_from_exact(d: Seq<u8>, i: int, q: u8, r: int)
    requires
        0 <= i <= r < d.len(),
        d[r] == q,
        forall|k: int| i <= k < r ==> d[k] != q,
    ensures
        find_from(d, i, q) == r,
    decreases r - i,
{
    if i < r {
        lemma_find_from_exact(d, i + 1, q, r);
    }
}

/// A fresh copy of a byte vector.
pub(crate) fn copy_all(v: &Vec<u8>) -> (r: Vec<u8>)
    ensures
        r@ == v@,
{
    let r = copy_range(v.as_slice(), 0, v.len());
    proof {
        assert(v@.subrange(0, v@.len() as int) =~= v@);
    }
    r
}

/// A scan that stopped at the first non-lexeme byte found `run_len`.
proof fn lemma_run_scan(d: Seq<u8>, i: int, j: int)
    requires
        0 <= i <= j <= d.len(),
        forall|k: int| i <= k < j ==> is_sym_byte(d[k]),
        j < d.len() ==> !is_sym_byte(d[j]),
    ensures
        run_len(d, i) == j - i,
    decreases j - i,
{
    if i < j {
        lemma_run_scan(d, i + 1, j);
    }
}

/// A scan that stopped at the first newline found `comment_len`.
pub proof fn lemma_comment_scan(d: Seq<u8>, i: int, j: int)
    requires
        0 <= i <= j <= d.len(),
        forall|k: int| i <= k < j ==> d[k] != 10,
        j < d.len() ==> d[j] == 10,
    ensures
        comment_len(d, i) == j - i,
    decreases j - i,
{
    if i < j {
        lemma_comment_scan(d, i + 1, j);
    }
}

/// A scan that stopped at the first occurrence of `q` found `find_from`.
proof fn lemma_find_scan(d: Seq<u8>, i: int, j: int, q: u8)
    requires
        0 <= i <= j <= d.len(),
        forall|k: int| i <= k < j ==> d[k] != q,
        j < d.len() ==> d[j] == q,
    ensures
        find_from(d, i, q) == j,
    decreases j - i,
{
    if i < j {
        lemma_find_scan(d, i + 1, j, q);
    }
}

proof fn lemma_tv_push(s: Seq<Token>, t: Token)
    ensures
        tokens_view(s.push(t)) == tokens_view(s).push(t@),
{
    assert(tokens_view(s.push(t)) =~= tokens_view(s).push(t@));
}

fn sym_at(data: &[u8], j: usize) -> (r: bool)
    requires
        j < data@.len(),
    ensures
        r == is_sym_byte(data@[j as int]),
{
    is_sym(data[j])
}

/// Tokenize a source text.  The result is exactly `spec_lex` of the input.
pub fn lex(data: &[u8]) -> (r: Vec<Token>)
    ensures
        tokens_view(r@) == spec_lex(data@),
{
    let ghost d = data@;
    let mut toks: Vec<Token> = Vec::new();
    let mut i: usize = 0;
    let mut last_end: usize = 0;
    while i < data.len()
        invariant
            i <= d.len(),
            d == data@,
            tokens_view(toks@) + spec_lex_at(d, i as int, last_end) == spec_lex(d),
        decreases d.len() - i,
    {
        let ghost i0 = i as int;
        let ghost le0 = last_end;
        let c = data[i];
        if is_ws(c) {
            i = i + 1;
            proof {
                assert(spec_lex_at(d, i0, le0) == spec_lex_at(d, i as int, last_end));
            }
        } else if is_delim(c) {
            let kind = if c == 40 {
                TokenKind::LParen
            } else if c == 41 {
                TokenKind::RParen
            } else if c == 91 {
                TokenKind::LBracket
            } else if c == 93 {
                TokenKind::RBracket
            } else if c == 123 {
                TokenKind::LBrace
            } else {
                TokenKind::RBrace
            };
            let t = Token { kind, span: Span { start: i, end: i + 1 } };
            proof {
                lemma_tv_push(toks@, t);
                assert(spec_lex_at(d, i0, le0) == seq![t@] + spec_lex_at(d, i0 + 1, (i0
                    + 1) as usize));
                assert(tokens_view(toks@.push(t)) + spec_lex_at(d, i0 + 1, (i0 + 1) as usize)
                    =~= tokens_view(toks@) + spec_lex_at(d, i0, le0));
            }
            toks.push(t);
            i = i + 1;
            last_end = i;
        } else if c == 59 {
            let mut j: usize = i;
            while j < data.len() && data[j] != 10
                invariant
                    i <= j <= d.len(),
                    d == data@,
                    forall|k: int| i <= k < j ==> d[k] != 10,
                decreases d.len() - j,
            {
                j = j + 1;
            }
            proof {
                lemma_comment_scan(d, i0, j as int);
                assert(spec_lex_at(d, i0, le0) == spec_lex_at(d, j as int, last_end));
            }
            i = j;
        } else {
            let mut j: usize = i;
            while j < data.len() && sym_at(data, j)
                invariant
                    i <= j <= d.len(),
                    d == data@,
                    forall|k: int| i <= k < j ==> is_sym_byte(d[k]),
                decreases d.len() - j,
            {
                j = j + 1;
            }
            proof {
                lemma_run_scan(d, i0, j as int);
                assert(j - i == run_len(d, i0));
            }
            let ghost gq = find_from(d, i0 + 1, c);
            let mut quoted = false;
            if c == 34 || c == 39 {
                let mut q: usize = i + 1;
                while q < data.len() && data[q] != c
                    invariant
                        i + 1 <= q <= d.len(),
                        d == data@,
                        c == d[i0],
                        forall|k: int| i + 1 <= k < q ==> d[k] != c,
                    decreases d.len() - q,
                {
                    q = q + 1;
                }
                proof {
                    lemma_find_scan(d, i0 + 1, q as int, c);
                    assert(q == gq);
                }
                if q < data.len() && i + 2 <= q && j <= q + 1 {
                    let content = copy_range(data, i + 1, q);
                    let kind = if c == 34 {
                        TokenKind::Str(content)
                    } else {
                        TokenKind::Sym(content)
                    };
                    let t = Token { kind, span: Span { start: i, end: q + 1 } };
                    proof {
                        lemma_tv_push(toks@, t);
                        assert(spec_lex_at(d, i0, le0) == seq![t@] + spec_lex_at(d, q + 1, (q
                            + 1) as usize));
                        assert(tokens_view(toks@.push(t)) + spec_lex_at(d, q + 1, (q + 1) as usize)
                            =~= tokens_view(toks@) + spec_lex_at(d, i0, le0));
                    }
                    toks.push(t);
                    i = q + 1;
                    last_end = i;
                    quoted = true;
                } else {
                    proof {
                        assert(!(gq < d.len() && i0 + 2 <= gq && run_len(d, i0) <= gq + 1 - i0));
                    }
                }
            }
            if !quoted {
                let sv = copy_range(data, i, j);
                let kind = classify_run(&sv);
                let t = Token { kind, span: Span { start: i, end: j } };
                proof {
                    lemma_tv_push(toks@, t);
                    assert(spec_lex_at(d, i0, le0) == seq![t@] + spec_lex_at(d, j as int,
                        j as usize));
                    assert(tokens_view(toks@.push(t)) + spec_lex_at(d, j as int, j as usize)
                        =~= tokens_view(toks@) + spec_lex_at(d, i0, le0));
                }
                toks.push(t);
                i = j;
                last_end = j;
            }
        }
    }
    let t = Token { kind: TokenKind::Eof, span: Span { start: last_end, end: last_end } };
    proof {
        lemma_tv_push(toks@, t);
        assert(spec_lex_at(d, i as int, last_end) == seq![t@]);
        assert(tokens_view(toks@.push(t)) =~= tokens_view(toks@) + spec_lex_at(
            d,
            i as int,
            last_end,
        ));
    }
    toks.push(t);
    toks
}

// ---------------------------------------------------------------------------
// Stream invariants
// ---------------------------------------------------------------------------

/// What the parser relies on: a nonempty stream whose one end-of-input
/// token sits at the end.
pub open spec fn tokens_wf(ts: Seq<TokenV>) -> bool {
    &&& ts.len() >= 1
    &&& ts.last().kind == TokenKindV::Eof
    &&& forall|k: int| 0 <= k < ts.len() - 1 ==> ts[k].kind != TokenKindV::Eof
}

#[verifier::rlimit(60)]
proof fn lemma_lex_at_wf(d: Seq<u8>, i: int, last_end: usize)
    requires
        d.len() <= usize::MAX,
        0 <= i <= d.len(),
        last_end <= i,
    ensures
        ({
            let ts = spec_lex_at(d, i, last_end);
            &&& ts.len() >= 1
            &&& ts.last().kind == TokenKindV::Eof
            &&& ts.last().span.start == ts.last().span.end
            &&& ts.last().span.start == if ts.len() == 1 {
                last_end as int
            } else {
                ts[ts.len() - 2].span.end as int
            }
            &&& forall|k: int| 0 <= k < ts.len() - 1 ==> ts[k].kind != TokenKindV::Eof
            &&& forall|k: int|
                0 <= k < ts.len() ==> (#[trigger] ts[k]).span.start <= ts[k].span.end <= d.len()
            &&& forall|k: int| 0 <= k < ts.len() - 1 ==> ts[k].span.end <= ts[k + 1].span.start
            &&& ts[0].span.start >= last_end
        }),
    decreases d.len() - i,
{
    if !(0 <= i < d.len()) {
    } else {
        let c = d[i];
        if is_ws_byte(c) {
            lemma_lex_at_wf(d, i + 1, last_end);
        } else if is_delim_byte(c) {
            lemma_lex_at_wf(d, i + 1, (i + 1) as usize);
        } else if c == 59 {
            lemma_comment_len(d, i);
            lemma_lex_at_wf(d, i + comment_len(d, i), last_end);
        } else {
            lemma_run_len(d, i);
            lemma_find_from(d, i + 1, c);
            let l = run_len(d, i) as int;
            let q = find_from(d, i + 1, c);
            if (c == 34 || c == 39) && q < d.len() && i + 2 <= q && l <= q + 1 - i {
                lemma_lex_at_wf(d, q + 1, (q + 1) as usize);
            } else {
                lemma_lex_at_wf(d, i + l, (i + l) as usize);
            }
        }
    }
}

/// Token spans within the input, each well ordered and no two
/// overlapping.
pub open spec fn spans_ordered(ts: Seq<TokenV>) -> bool {
    &&& forall|k: int| 0 <= k < ts.len() ==> (#[trigger] ts[k]).span.start <= ts[k].span.end
    &&& forall|k: int| 0 <= k < ts.len() - 1 ==> (#[trigger] ts[k]).span.end <= ts[k + 1].span.start
}

/// Every lexed stream is well formed for the parser.
pub proof fn lemma_lex_wf(d: Seq<u8>)
    requires
        d.len() <= usize::MAX,
    ensures
        tokens_wf(spec_lex(d)),
        spans_ordered(spec_lex(d)),
{
    lemma_lex_at_wf(d, 0, 0);
}

/// For any input, the token stream ends with exactly one end-of-input
/// token whose span is empty and starts at the end offset of the last
/// emitted token, or at 0 when no token was emitted.
pub proof fn lemma_lex_terminates_with_eof(d: Seq<u8>)
    requires
        d.len() <= usize::MAX,
    ensures
        spec_lex(d).len() >= 1,
        spec_lex(d).last().kind == TokenKindV::Eof,
        forall|k: int| 0 <= k < spec_lex(d).len() - 1 ==> spec_lex(d)[k].kind != TokenKindV::Eof,
        spec_lex(d).last().span.start == spec_lex(d).last().span.end,
        spec_lex(d).last().span.start == if spec_lex(d).len() == 1 {
            0int
        } else {
            spec_lex(d)[spec_lex(d).len() - 2].span.end as int
        },
{
    lemma_lex_at_wf(d, 0, 0);
}

/// Token spans are within the input, ordered and non-overlapping: each
/// token's span ends no later than the next one starts.
pub proof fn lemma_lex_spans_ordered(d: Seq<u8>)
    requires
        d.len() <= usize::MAX,
    ensures
        forall|k: int|
            0 <= k < spec_lex(d).len() ==> (#[trigger] spec_lex(d)[k]).span.start <= spec_lex(
                d,
            )[k].span.end <= d.len(),
        forall|k: int|
            0 <= k < spec_lex(d).len() - 1 ==> spec_lex(d)[k].span.end <= spec_lex(
                d,
            )[k + 1].span.start,
{
    lemma_lex_at_wf(d, 0, 0);
}

} // verus!
