//! Recursive-descent parser for the script language.
//!
//! `parse` consumes a lexed token stream and produces a list of tree nodes
//! plus recoverable diagnostics.  A stack of currently open delimiters is
//! kept purely so that recovery diagnostics can name the unmatched opener;
//! a stray closer or the end of input closes the innermost open list with
//! one diagnostic, while any other unexpected token is a fatal error that
//! aborts the whole parse.
use crate::lexer::Span;
use crate::lexer::Token;
use crate::lexer::TokenKind;
use crate::lexer::TokenKindV;
use crate::lexer::TokenV;
use crate::lexer::tokens_view;
use crate::lexer::tokens_wf;
use vstd::prelude::*;

verus! {

/// A recoverable or fatal parser finding.  `UnmatchedBrace` pairs the span
/// of the still-open delimiter with the span of the unexpected token that
/// closed it; `GenericError` is a fatal unexpected token.
#[derive(Clone, Copy, Debug, PartialEq, Eq, Structural)]
pub enum ParseLint {
    UnmatchedBrace(Span, Span),
    GenericError(Span),
}

/// The kind of one tree node: literal leaves, directive leaves carrying
/// their symbol argument, a define with its name and body, and the three
/// delimited list forms.
#[derive(Debug)]
pub enum NodeKind {
    Int(i32),
    Float(Vec<u8>),
    Var(Vec<u8>),
    Symbol(Vec<u8>),
    Unhandled,
    IfDef(Vec<u8>),
    Else,
    EndIf,
    Array(Vec<Node>),
    Stmt(Vec<Node>),
    Str(Vec<u8>),
    Prop(Vec<Node>),
    Define(Vec<u8>, Vec<Node>),
    Incl(Vec<u8>),
    Merge(Vec<u8>),
    IfNDef(Vec<u8>),
    Autorun,
    Undef(Vec<u8>),
}

/// One tree node: its kind and the byte span of its full source extent.
#[derive(Debug)]
pub struct Node {
    pub kind: NodeKind,
    pub span: Span,
}

/// Mathematical mirror of `NodeKind`.
pub ghost enum NodeKindV {
    Int(i32),
    Float(Seq<u8>),
    Var(Seq<u8>),
    Symbol(Seq<u8>),
    Unhandled,
    IfDef(Seq<u8>),
    Else,
    EndIf,
    Array(Seq<NodeV>),
    Stmt(Seq<NodeV>),
    Str(Seq<u8>),
    Prop(Seq<NodeV>),
    Define(Seq<u8>, Seq<NodeV>),
    Incl(Seq<u8>),
    Merge(Seq<u8>),
    IfNDef(Seq<u8>),
    Autorun,
    Undef(Seq<u8>),
}

pub ghost struct NodeV {
    pub kind: NodeKindV,
    pub span: Span,
}

impl Node {
    pub open spec fn deep_view(&self) -> NodeV
        decreases self,
    {
        NodeV {
            kind: match self.kind {
                NodeKind::Int(v) => NodeKindV::Int(v),
                NodeKind::Float(s) => NodeKindV::Float(s@),
                NodeKind::Var(s) => NodeKindV::Var(s@),
                NodeKind::Symbol(s) => NodeKindV::Symbol(s@),
                NodeKind::Unhandled => NodeKindV::Unhandled,
                NodeKind::IfDef(s) => NodeKindV::IfDef(s@),
                NodeKind::Else => NodeKindV::Else,
                NodeKind::EndIf => NodeKindV::EndIf,
                NodeKind::Array(ns) => NodeKindV::Array(deep_view_nodes(ns@)),
                NodeKind::Stmt(ns) => NodeKindV::Stmt(deep_view_nodes(ns@)),
                NodeKind::Str(s) => NodeKindV::Str(s@),
                NodeKind::Prop(ns) => NodeKindV::Prop(deep_view_nodes(ns@)),
                NodeKind::Define(s, ns) => NodeKindV::Define(s@, deep_view_nodes(ns@)),
                NodeKind::Incl(s) => NodeKindV::Incl(s@),
                NodeKind::Merge(s) => NodeKindV::Merge(s@),
                NodeKind::IfNDef(s) => NodeKindV::IfNDef(s@),
                NodeKind::Autorun => NodeKindV::Autorun,
                NodeKind::Undef(s) => NodeKindV::Undef(s@),
            },
            span: self.span,
        }
    }
}

/// The node views of a node sequence.
pub open spec fn deep_view_nodes(s: Seq<Node>) -> Seq<NodeV>
    decreases s,
{
    if s.len() == 0 {
        Seq::empty()
    } else {
        seq![s[0].deep_view()] + deep_view_nodes(s.subrange(1, s.len() as int))
    }
}

pub proof fn lemma_deep_view_nodes(s: Seq<Node>)
    ensures
        deep_view_nodes(s).len() == s.len(),
        forall|i: int| 0 <= i < s.len() ==> deep_view_nodes(s)[i] == s[i].deep_view(),
    decreases s.len(),
{
    if s.len() > 0 {
        lemma_deep_view_nodes(s.subrange(1, s.len() as int));
    }
}

/// Which closing token a list is waiting for.
#[derive(Clone, Copy, Debug, PartialEq, Eq, Structural)]
pub enum Closer {
    RParen,
    RBracket,
    RBrace,
    Eof,
}

pub open spec fn closer_matches(k: TokenKindV, stop: Closer) -> bool {
    match stop {
        Closer::RParen => k == TokenKindV::RParen,
        Closer::RBracket => k == TokenKindV::RBracket,
        Closer::RBrace => k == TokenKindV::RBrace,
        Closer::Eof => k == TokenKindV::Eof,
    }
}

/// One of the three closing delimiters, which recovery may consume.
pub open spec fn is_recovery_kind(k: TokenKindV) -> bool {
    k == TokenKindV::RParen || k == TokenKindV::RBracket || k == TokenKindV::RBrace
}

pub open spec fn is_recovery_or_eof(k: TokenKindV) -> bool {
    is_recovery_kind(k) || k == TokenKindV::Eof
}

/// A token whose node is the matching leaf directly.
pub open spec fn is_leaf_kind(k: TokenKindV) -> bool {
    match k {
        TokenKindV::Int(_) => true,
        TokenKindV::Float(_) => true,
        TokenKindV::Var(_) => true,
        TokenKindV::Sym(_) => true,
        TokenKindV::Str(_) => true,
        TokenKindV::Unhandled => true,
        TokenKindV::Else => true,
        TokenKindV::EndIf => true,
        TokenKindV::Autorun => true,
        _ => false,
    }
}

/// The leaf node of a leaf token.
pub open spec fn leaf_node_v(t: TokenV) -> NodeV {
    let kind = match t.kind {
        TokenKindV::Int(v) => NodeKindV::Int(v),
        TokenKindV::Float(s) => NodeKindV::Float(s),
        TokenKindV::Var(s) => NodeKindV::Var(s),
        TokenKindV::Sym(s) => NodeKindV::Symbol(s),
        TokenKindV::Str(s) => NodeKindV::Str(s),
        TokenKindV::Unhandled => NodeKindV::Unhandled,
        TokenKindV::Else => NodeKindV::Else,
        TokenKindV::EndIf => NodeKindV::EndIf,
        _ => NodeKindV::Autorun,
    };
    NodeV { kind, span: t.span }
}

/// The bounding span of a node list, folded with min over starts and max
/// over ends, starting from the reversed empty extent.
pub open spec fn combine_spans_v(ns: Seq<NodeV>) -> Span
    decreases ns.len(),
{
    if ns.len() == 0 {
        Span { start: usize::MAX, end: 0 }
    } else {
        let rest = combine_spans_v(ns.drop_last());
        let l = ns.last().span;
        Span {
            start: if rest.start <= l.start {
                rest.start
            } else {
                l.start
            },
            end: if rest.end >= l.end {
                rest.end
            } else {
                l.end
            },
        }
    }
}

// ---------------------------------------------------------------------------
// The parser, specification level
// ---------------------------------------------------------------------------

/// Parser state: the cursor, the open-delimiter stack, and the recoverable
/// diagnostics recorded so far.
pub ghost struct PState {
    pub cur: int,
    pub stack: Seq<Span>,
    pub diags: Seq<ParseLint>,
}

pub ghost enum PNode {
    Good(NodeV, PState),
    Fail(ParseLint, PState),
}

pub ghost enum PList {
    Good(Seq<NodeV>, PState),
    Fail(ParseLint, PState),
}

/// Parse one node at the cursor.  Leaf tokens become leaf nodes; a
/// one-symbol directive eats its symbol; an opening delimiter parses a
/// delimited list; anything else is a fatal error at the cursor.
pub open spec fn sp_parse_node(ts: Seq<TokenV>, st: PState) -> PNode
    decreases ts.len() - st.cur, 0int,
{
    if !(0 <= st.cur < ts.len()) {
        arbitrary()
    } else {
        let t = ts[st.cur];
        if is_leaf_kind(t.kind) {
            PNode::Good(
                leaf_node_v(t),
                PState { cur: st.cur + 1, stack: st.stack, diags: st.diags },
            )
        } else {
            match t.kind {
                TokenKindV::IfDef => sp_sym_directive(ts, st, 0),
                TokenKindV::Incl => sp_sym_directive(ts, st, 1),
                TokenKindV::Merge => sp_sym_directive(ts, st, 2),
                TokenKindV::IfNDef => sp_sym_directive(ts, st, 3),
                TokenKindV::UnDef => sp_sym_directive(ts, st, 4),
                TokenKindV::LParen => {
                    let st1 = PState {
                        cur: st.cur + 1,
                        stack: st.stack.push(t.span),
                        diags: st.diags,
                    };
                    match sp_parse_list(ts, Closer::RParen, st1) {
                        PList::Good(ns, st2) => {
                            let prev = ts[st2.cur - 1].span;
                            PNode::Good(
                                NodeV {
                                    kind: NodeKindV::Array(ns),
                                    span: Span { start: t.span.start, end: prev.end },
                                },
                                st2,
                            )
                        },
                        PList::Fail(e, st2) => PNode::Fail(e, st2),
                    }
                },
                TokenKindV::LBracket => {
                    let st1 = PState {
                        cur: st.cur + 1,
                        stack: st.stack.push(t.span),
                        diags: st.diags,
                    };
                    match sp_parse_list(ts, Closer::RBracket, st1) {
                        PList::Good(ns, st2) => {
                            let prev = ts[st2.cur - 1].span;
                            PNode::Good(
                                NodeV {
                                    kind: NodeKindV::Prop(ns),
                                    span: Span { start: t.span.start, end: prev.end },
                                },
                                st2,
                            )
                        },
                        PList::Fail(e, st2) => PNode::Fail(e, st2),
                    }
                },
                TokenKindV::LBrace => {
                    let st1 = PState {
                        cur: st.cur + 1,
                        stack: st.stack.push(t.span),
                        diags: st.diags,
                    };
                    match sp_parse_list(ts, Closer::RBrace, st1) {
                        PList::Good(ns, st2) => {
                            let prev = ts[st2.cur - 1].span;
                            PNode::Good(
                                NodeV {
                                    kind: NodeKindV::Stmt(ns),
                                    span: Span { start: t.span.start, end: prev.end },
                                },
                                st2,
                            )
                        },
                        PList::Fail(e, st2) => PNode::Fail(e, st2),
                    }
                },
                TokenKindV::Define => {
                    let t2 = ts[st.cur + 1];
                    match t2.kind {
                        TokenKindV::Sym(name) => {
                            let t3 = ts[st.cur + 2];
                            if t3.kind == TokenKindV::LParen && st.cur + 3 <= ts.len() {
                                let st1 = PState {
                                    cur: st.cur + 3,
                                    stack: st.stack.push(t3.span),
                                    diags: st.diags,
                                };
                                match sp_parse_list(ts, Closer::RParen, st1) {
                                    PList::Good(ns, st2) => {
                                        let vs = combine_spans_v(ns);
                                        let end = if vs.end <= t2.span.end {
                                            vs.end
                                        } else {
                                            t2.span.end
                                        };
                                        PNode::Good(
                                            NodeV {
                                                kind: NodeKindV::Define(name, ns),
                                                span: Span { start: t.span.start, end },
                                            },
                                            st2,
                                        )
                                    },
                                    PList::Fail(e, st2) => PNode::Fail(e, st2),
                                }
                            } else if t3.kind == TokenKindV::LParen {
                                arbitrary()
                            } else {
                                PNode::Fail(
                                    ParseLint::GenericError(t3.span),
                                    PState { cur: st.cur + 2, stack: st.stack, diags: st.diags },
                                )
                            }
                        },
                        _ => PNode::Fail(
                            ParseLint::GenericError(t2.span),
                            PState { cur: st.cur + 1, stack: st.stack, diags: st.diags },
                        ),
                    }
                },
                _ => PNode::Fail(ParseLint::GenericError(t.span), st),
            }
        }
    }
}

/// The node of a directive that takes one following symbol.  `which` picks
/// the directive: if-defined, file insertion, merge, if-not-defined, undef.
pub open spec fn sp_sym_directive(ts: Seq<TokenV>, st: PState, which: int) -> PNode {
    let t = ts[st.cur];
    let t2 = ts[st.cur + 1];
    match t2.kind {
        TokenKindV::Sym(name) => {
            let kind = if which == 0 {
                NodeKindV::IfDef(name)
            } else if which == 1 {
                NodeKindV::Incl(name)
            } else if which == 2 {
                NodeKindV::Merge(name)
            } else if which == 3 {
                NodeKindV::IfNDef(name)
            } else {
                NodeKindV::Undef(name)
            };
            PNode::Good(
                NodeV { kind, span: Span { start: t.span.start, end: t2.span.end } },
                PState { cur: st.cur + 2, stack: st.stack, diags: st.diags },
            )
        },
        _ => PNode::Fail(
            ParseLint::GenericError(t2.span),
            PState { cur: st.cur + 1, stack: st.stack, diags: st.diags },
        ),
    }
}

/// Parse child nodes until the stop token.  A clean close pops the open
/// delimiter (unless the stop is end-of-input, which is never pushed).  On
/// a child failure with an open delimiter, a stray closer or end-of-input
/// records one unmatched-delimiter diagnostic against the innermost opener
/// and ends the list as if closed; any other failure is fatal.
pub open spec fn sp_parse_list(ts: Seq<TokenV>, stop: Closer, st: PState) -> PList
    decreases ts.len() - st.cur, 1int,
{
    if !(0 <= st.cur < ts.len()) {
        arbitrary()
    } else {
        let t = ts[st.cur];
        if closer_matches(t.kind, stop) {
            if t.kind == TokenKindV::Eof {
                PList::Good(
                    Seq::empty(),
                    PState { cur: st.cur + 1, stack: st.stack, diags: st.diags },
                )
            } else if st.stack.len() > 0 {
                PList::Good(
                    Seq::empty(),
                    PState { cur: st.cur + 1, stack: st.stack.drop_last(), diags: st.diags },
                )
            } else {
                arbitrary()
            }
        } else {
            match sp_parse_node(ts, st) {
                PNode::Good(n, st2) => {
                    if st.cur < st2.cur && st2.cur <= ts.len() {
                        match sp_parse_list(ts, stop, st2) {
                            PList::Good(ns, st3) => PList::Good(seq![n] + ns, st3),
                            PList::Fail(e, st3) => PList::Fail(e, st3),
                        }
                    } else {
                        arbitrary()
                    }
                },
                PNode::Fail(e, st2) => {
                    if st2.stack.len() > 0 {
                        let tk = ts[st2.cur];
                        let diag = ParseLint::UnmatchedBrace(st2.stack.last(), tk.span);
                        if is_recovery_kind(tk.kind) {
                            PList::Good(
                                Seq::empty(),
                                PState {
                                    cur: st2.cur + 1,
                                    stack: st2.stack.drop_last(),
                                    diags: st2.diags.push(diag),
                                },
                            )
                        } else if tk.kind == TokenKindV::Eof {
                            PList::Good(
                                Seq::empty(),
                                PState {
                                    cur: st2.cur,
                                    stack: st2.stack.drop_last(),
                                    diags: st2.diags.push(diag),
                                },
                            )
                        } else {
                            PList::Fail(e, st2)
                        }
                    } else {
                        PList::Fail(e, st2)
                    }
                },
            }
        }
    }
}

/// The outcome of a whole parse: the node list on success, and the
/// recoverable diagnostics with the single fatal error appended on failure.
pub ghost struct PFinal {
    pub ok: bool,
    pub nodes: Seq<NodeV>,
    pub diags: Seq<ParseLint>,
}

pub open spec fn sp_parse(ts: Seq<TokenV>) -> PFinal {
    let init = PState { cur: 0, stack: Seq::empty(), diags: Seq::empty() };
    match sp_parse_list(ts, Closer::Eof, init) {
        PList::Good(ns, st) => PFinal { ok: true, nodes: ns, diags: st.diags },
        PList::Fail(e, st) => PFinal { ok: false, nodes: Seq::empty(), diags: st.diags.push(e) },
    }
}

// ---------------------------------------------------------------------------
// The parser, executable level
// ---------------------------------------------------------------------------

/// Executable parser state, viewed as `PState`.
struct Pst {
    cursor: usize,
    stack: Vec<Span>,
    diags: Vec<ParseLint>,
}

impl View for Pst {
    type V = PState;

    closed spec fn view(&self) -> PState {
        PState { cur: self.cursor as int, stack: self.stack@, diags: self.diags@ }
    }
}

fn closer_match(k: &TokenKind, stop: Closer) -> (r: bool)
    ensures
        r == closer_matches(k@, stop),
{
    match stop {
        Closer::RParen => matches!(k, TokenKind::RParen),
        Closer::RBracket => matches!(k, TokenKind::RBracket),
        Closer::RBrace => matches!(k, TokenKind::RBrace),
        Closer::Eof => matches!(k, TokenKind::Eof),
    }
}

fn is_recovery(k: &TokenKind) -> (r: bool)
    ensures
        r == is_recovery_kind(k@),
{
    matches!(k, TokenKind::RParen | TokenKind::RBracket | TokenKind::RBrace)
}

/// The leaf node of a leaf token.
fn leaf_from_token(t: &Token) -> (n: Node)
    requires
        is_leaf_kind(t@.kind),
    ensures
        n.deep_view() == leaf_node_v(t@),
{
    let span = t.span;
    match &t.kind {
        TokenKind::Sym(s) => Node { kind: NodeKind::Symbol(crate::lexer::copy_all(s)), span },
        TokenKind::Int(v) => Node { kind: NodeKind::Int(*v), span },
        TokenKind::Float(s) => Node { kind: NodeKind::Float(crate::lexer::copy_all(s)), span },
        TokenKind::Str(s) => Node { kind: NodeKind::Str(crate::lexer::copy_all(s)), span },
        TokenKind::Var(s) => Node { kind: NodeKind::Var(crate::lexer::copy_all(s)), span },
        TokenKind::Else => Node { kind: NodeKind::Else, span },
        TokenKind::EndIf => Node { kind: NodeKind::EndIf, span },
        TokenKind::Unhandled => Node { kind: NodeKind::Unhandled, span },
        _ => Node { kind: NodeKind::Autorun, span },
    }
}

/// The bounding span of a node list.
pub fn combine_node_spans(list: &Vec<Node>) -> (r: Span)
    ensures
        r == combine_spans_v(deep_view_nodes(list@)),
{
    let mut start: usize = usize::MAX;
    let mut end: usize = 0;
    let mut k: usize = 0;
    while k < list.len()
        invariant
            k <= list@.len(),
            (Span { start, end }) == combine_spans_v(deep_view_nodes(list@).take(k as int)),
        decreases list@.len() - k,
    {
        proof {
            lemma_deep_view_nodes(list@);
            let dvn = deep_view_nodes(list@);
            assert(dvn.take(k + 1).drop_last() =~= dvn.take(k as int));
            assert(dvn.take(k + 1).last() == list@[k as int].deep_view());
        }
        let sp = list[k].span;
        if sp.start < start {
            start = sp.start;
        }
        if sp.end > end {
            end = sp.end;
        }
        k = k + 1;
    }
    proof {
        lemma_deep_view_nodes(list@);
        assert(deep_view_nodes(list@).take(list@.len() as int) =~= deep_view_nodes(list@));
    }
    Span { start, end }
}

/// The matching token kind of each one-symbol directive tag.
pub open spec fn directive_kind_of(which: int) -> TokenKindV {
    if which == 0 {
        TokenKindV::IfDef
    } else if which == 1 {
        TokenKindV::Incl
    } else if which == 2 {
        TokenKindV::Merge
    } else if which == 3 {
        TokenKindV::IfNDef
    } else {
        TokenKindV::UnDef
    }
}

/// Parse a directive that takes one following symbol token.
fn parse_sym_directive(tokens: &[Token], st: Pst, which: usize) -> (r: (
    Pst,
    Result<Node, ParseLint>,
))
    requires
        tokens_wf(tokens_view(tokens@)),
        st@.cur < tokens@.len(),
        which <= 4,
        tokens_view(tokens@)[st@.cur].kind == directive_kind_of(which as int),
    ensures
        ({
            let sp = sp_sym_directive(tokens_view(tokens@), st@, which as int);
            match r.1 {
                Ok(n) => sp == PNode::Good(n.deep_view(), r.0@),
                Err(e) => sp == PNode::Fail(e, r.0@),
            }
        }),
        r.1 is Ok ==> r.0@.cur > st@.cur && r.0.stack@ == st.stack@,
        r.1 is Err ==> r.0@.cur >= st@.cur && r.0.stack@ == st.stack@,
        r.0@.cur < tokens@.len(),
{
    let ghost ts = tokens_view(tokens@);
    proof {
        assert(ts[st@.cur] == tokens@[st@.cur]@);
        assert(ts[st@.cur].kind != TokenKindV::Eof);
        assert(st@.cur != ts.len() - 1);
    }
    let dspan = tokens[st.cursor].span;
    let mut st = st;
    proof {
        assert(ts[st@.cur + 1] == tokens@[st@.cur + 1]@);
    }
    let t2 = &tokens[st.cursor + 1];
    match &t2.kind {
        TokenKind::Sym(name) => {
            proof {
                assert(ts[st@.cur + 1].kind != TokenKindV::Eof);
                assert(st@.cur + 1 != ts.len() - 1);
            }
            let nb = crate::lexer::copy_all(name);
            let kind = if which == 0 {
                NodeKind::IfDef(nb)
            } else if which == 1 {
                NodeKind::Incl(nb)
            } else if which == 2 {
                NodeKind::Merge(nb)
            } else if which == 3 {
                NodeKind::IfNDef(nb)
            } else {
                NodeKind::Undef(nb)
            };
            let n = Node { kind, span: Span { start: dspan.start, end: t2.span.end } };
            st.cursor = st.cursor + 2;
            (st, Ok(n))
        },
        _ => {
            let e = ParseLint::GenericError(t2.span);
            st.cursor = st.cursor + 1;
            (st, Err(e))
        },
    }
}

/// Parse one node at the cursor.
fn parse_node(tokens: &[Token], st: Pst) -> (r: (Pst, Result<Node, ParseLint>))
    requires
        tokens_wf(tokens_view(tokens@)),
        st@.cur < tokens@.len(),
    ensures
        ({
            let sp = sp_parse_node(tokens_view(tokens@), st@);
            match r.1 {
                Ok(n) => sp == PNode::Good(n.deep_view(), r.0@),
                Err(e) => sp == PNode::Fail(e, r.0@),
            }
        }),
        r.1 is Ok ==> r.0@.cur > st@.cur && r.0.stack@ == st.stack@,
        r.1 is Err ==> r.0@.cur >= st@.cur && r.0.stack@.len() >= st.stack@.len() && (
        is_recovery_or_eof(tokens_view(tokens@)[r.0@.cur].kind) ==> r.0.stack@ == st.stack@),
        r.0@.cur < tokens@.len(),
    decreases tokens@.len() - st@.cur, 0int,
{
    let ghost ts = tokens_view(tokens@);
    proof {
        assert(ts[st@.cur] == tokens@[st@.cur]@);
    }
    let t = &tokens[st.cursor];
    let span = t.span;
    let mut st = st;
    match &t.kind {
        TokenKind::Int(_) | TokenKind::Float(_) | TokenKind::Var(_) | TokenKind::Sym(_)
            | TokenKind::Str(_) | TokenKind::Unhandled | TokenKind::Else | TokenKind::EndIf
            | TokenKind::Autorun => {
            proof {
                assert(ts[st@.cur].kind != TokenKindV::Eof);
                assert(st@.cur != ts.len() - 1);
            }
            let n = leaf_from_token(t);
            st.cursor = st.cursor + 1;
            (st, Ok(n))
        },
        TokenKind::IfDef => parse_sym_directive(tokens, st, 0),
        TokenKind::Incl => parse_sym_directive(tokens, st, 1),
        TokenKind::Merge => parse_sym_directive(tokens, st, 2),
        TokenKind::IfNDef => parse_sym_directive(tokens, st, 3),
        TokenKind::UnDef => parse_sym_directive(tokens, st, 4),
        TokenKind::LParen => {
            proof {
                assert(ts[st@.cur].kind != TokenKindV::Eof);
                assert(st@.cur != ts.len() - 1);
            }
            st.stack.push(span);
            st.cursor = st.cursor + 1;
            let ghost entry_stack = st.stack@.drop_last();
            let (st2, lr) = parse_list(tokens, Closer::RParen, st);
            match lr {
                Ok(ns) => {
                    let prev = tokens[st2.cursor - 1].span;
                    proof {
                        assert(ts[st2@.cur - 1] == tokens@[st2@.cur - 1]@);
                        assert(st2.stack@ =~= entry_stack);
                    }
                    let n = Node {
                        kind: NodeKind::Array(ns),
                        span: Span { start: span.start, end: prev.end },
                    };
                    (st2, Ok(n))
                },
                Err(e) => (st2, Err(e)),
            }
        },
        TokenKind::LBracket => {
            proof {
                assert(ts[st@.cur].kind != TokenKindV::Eof);
                assert(st@.cur != ts.len() - 1);
            }
            st.stack.push(span);
            st.cursor = st.cursor + 1;
            let ghost entry_stack = st.stack@.drop_last();
            let (st2, lr) = parse_list(tokens, Closer::RBracket, st);
            match lr {
                Ok(ns) => {
                    let prev = tokens[st2.cursor - 1].span;
                    proof {
                        assert(ts[st2@.cur - 1] == tokens@[st2@.cur - 1]@);
                        assert(st2.stack@ =~= entry_stack);
                    }
                    let n = Node {
                        kind: NodeKind::Prop(ns),
                        span: Span { start: span.start, end: prev.end },
                    };
                    (st2, Ok(n))
                },
                Err(e) => (st2, Err(e)),
            }
        },
        TokenKind::LBrace => {
            proof {
                assert(ts[st@.cur].kind != TokenKindV::Eof);
                assert(st@.cur != ts.len() - 1);
            }
            st.stack.push(span);
            st.cursor = st.cursor + 1;
            let ghost entry_stack = st.stack@.drop_last();
            let (st2, lr) = parse_list(tokens, Closer::RBrace, st);
            match lr {
                Ok(ns) => {
                    let prev = tokens[st2.cursor - 1].span;
                    proof {
                        assert(ts[st2@.cur - 1] == tokens@[st2@.cur - 1]@);
                        assert(st2.stack@ =~= entry_stack);
                    }
                    let n = Node {
                        kind: NodeKind::Stmt(ns),
                        span: Span { start: span.start, end: prev.end },
                    };
                    (st2, Ok(n))
                },
                Err(e) => (st2, Err(e)),
            }
        },
        TokenKind::Define => {
            proof {
                assert(ts[st@.cur].kind != TokenKindV::Eof);
                assert(st@.cur != ts.len() - 1);
                assert(ts[st@.cur + 1] == tokens@[st@.cur + 1]@);
            }
            let t2 = &tokens[st.cursor + 1];
            match &t2.kind {
                TokenKind::Sym(name) => {
                    proof {
                        assert(ts[st@.cur + 1].kind != TokenKindV::Eof);
                        assert(st@.cur + 1 != ts.len() - 1);
                        assert(ts[st@.cur + 2] == tokens@[st@.cur + 2]@);
                    }
                    let nb = crate::lexer::copy_all(name);
                    let sym_end = t2.span.end;
                    let t3 = &tokens[st.cursor + 2];
                    if matches!(t3.kind, TokenKind::LParen) {
                        proof {
                            assert(ts[st@.cur + 2].kind != TokenKindV::Eof);
                            assert(st@.cur + 2 != ts.len() - 1);
                        }
                        st.stack.push(t3.span);
                        st.cursor = st.cursor + 3;
                        let ghost entry_stack = st.stack@.drop_last();
                        let (st2, lr) = parse_list(tokens, Closer::RParen, st);
                        match lr {
                            Ok(ns) => {
                                proof {
                                    assert(st2.stack@ =~= entry_stack);
                                }
                                let vs = combine_node_spans(&ns);
                                let end = if vs.end <= sym_end {
                                    vs.end
                                } else {
                                    sym_end
                                };
                                let n = Node {
                                    kind: NodeKind::Define(nb, ns),
                                    span: Span { start: span.start, end },
                                };
                                (st2, Ok(n))
                            },
                            Err(e) => (st2, Err(e)),
                        }
                    } else {
                        let e = ParseLint::GenericError(t3.span);
                        st.cursor = st.cursor + 2;
                        (st, Err(e))
                    }
                },
                _ => {
                    let e = ParseLint::GenericError(t2.span);
                    st.cursor = st.cursor + 1;
                    (st, Err(e))
                },
            }
        },
        _ => {
            let e = ParseLint::GenericError(span);
            (st, Err(e))
        },
    }
}

/// Parse child nodes until the stop token, with recovery.
fn parse_list(tokens: &[Token], stop: Closer, st: Pst) -> (r: (Pst, Result<Vec<Node>, ParseLint>))
    requires
        tokens_wf(tokens_view(tokens@)),
        st@.cur < tokens@.len(),
        stop != Closer::Eof ==> st.stack@.len() >= 1,
    ensures
        ({
            let sp = sp_parse_list(tokens_view(tokens@), stop, st@);
            match r.1 {
                Ok(ns) => sp == PList::Good(deep_view_nodes(ns@), r.0@),
                Err(e) => sp == PList::Fail(e, r.0@),
            }
        }),
        r.0@.cur >= st@.cur,
        r.1 is Ok && stop != Closer::Eof ==> r.0@.cur < tokens@.len() && r.0.stack@
            == st.stack@.drop_last(),
        r.1 is Ok && stop == Closer::Eof ==> r.0@.cur <= tokens@.len(),
        r.1 is Err ==> r.0@.cur < tokens@.len() && r.0.stack@.len() >= st.stack@.len() && (
        st.stack@.len() >= 1 ==> !is_recovery_or_eof(tokens_view(tokens@)[r.0@.cur].kind)),
    decreases tokens@.len() - st@.cur, 1int,
{
    let ghost ts = tokens_view(tokens@);
    proof {
        assert(ts[st@.cur] == tokens@[st@.cur]@);
    }
    let t = &tokens[st.cursor];
    let mut st = st;
    if closer_match(&t.kind, stop) {
        if matches!(stop, Closer::Eof) {
            st.cursor = st.cursor + 1;
            return (st, Ok(Vec::new()));
        }
        proof {
            assert(ts[st@.cur].kind != TokenKindV::Eof);
            assert(st@.cur != ts.len() - 1);
        }
        st.cursor = st.cursor + 1;
        let _ = st.stack.pop();
        return (st, Ok(Vec::new()));
    }
    let (st2, nr) = parse_node(tokens, st);
    match nr {
        Ok(n) => {
            let (st3, lr) = parse_list(tokens, stop, st2);
            match lr {
                Ok(mut ns) => {
                    proof {
                        lemma_deep_view_nodes(ns@);
                        lemma_deep_view_nodes(ns@.insert(0, n));
                        assert(deep_view_nodes(ns@.insert(0, n)) =~= seq![n.deep_view()]
                            + deep_view_nodes(ns@));
                    }
                    ns.insert(0, n);
                    (st3, Ok(ns))
                },
                Err(e) => (st3, Err(e)),
            }
        },
        Err(e) => {
            let mut st2 = st2;
            proof {
                assert(ts[st2@.cur] == tokens@[st2@.cur]@);
            }
            if st2.stack.len() > 0 {
                let tk_span = tokens[st2.cursor].span;
                let tk_is_rec = is_recovery(&tokens[st2.cursor].kind);
                let tk_is_eof = matches!(tokens[st2.cursor].kind, TokenKind::Eof);
                let top = st2.stack[st2.stack.len() - 1];
                proof {
                    assert(top == st2.stack@.last());
                }
                let diag = ParseLint::UnmatchedBrace(top, tk_span);
                if tk_is_rec {
                    proof {
                        assert(ts[st2@.cur].kind != TokenKindV::Eof);
                        assert(st2@.cur != ts.len() - 1);
                    }
                    st2.diags.push(diag);
                    st2.cursor = st2.cursor + 1;
                    let _ = st2.stack.pop();
                    return (st2, Ok(Vec::new()));
                }
                if tk_is_eof {
                    st2.diags.push(diag);
                    let _ = st2.stack.pop();
                    return (st2, Ok(Vec::new()));
                }
            }
            (st2, Err(e))
        },
    }
}

/// Parse a whole token stream: the node list with the recoverable
/// diagnostics on success, or no tree and the diagnostics ending in the
/// single fatal error.  The outcome is exactly `sp_parse` of the stream.
pub fn parse(tokens: &[Token]) -> (r: (Result<Vec<Node>, ()>, Vec<ParseLint>))
    requires
        tokens_wf(tokens_view(tokens@)),
    ensures
        ({
            let sp = sp_parse(tokens_view(tokens@));
            &&& r.1@ == sp.diags
            &&& match r.0 {
                Ok(ns) => sp.ok && deep_view_nodes(ns@) == sp.nodes,
                Err(u) => !sp.ok,
            }
        }),
{
    let st = Pst { cursor: 0, stack: Vec::new(), diags: Vec::new() };
    let (st2, res) = parse_list(tokens, Closer::Eof, st);
    match res {
        Ok(ns) => (Ok(ns), st2.diags),
        Err(e) => {
            let mut st2 = st2;
            st2.diags.push(e);
            (Err(()), st2.diags)
        },
    }
}

// ---------------------------------------------------------------------------
// The span invariant of parsed trees
// ---------------------------------------------------------------------------

/// The span invariant of one node: a leaf's or delimited list's span is
/// well ordered, and so are all spans below it.  A define's own span is
/// exempt: its documented clamping rule can reverse it when the body is
/// empty.
pub open spec fn node_spans_wf(n: NodeV) -> bool
    decreases n,
{
    match n.kind {
        NodeKindV::Array(a) => n.span.start <= n.span.end && nodes_spans_wf(a),
        NodeKindV::Prop(a) => n.span.start <= n.span.end && nodes_spans_wf(a),
        NodeKindV::Stmt(a) => n.span.start <= n.span.end && nodes_spans_wf(a),
        NodeKindV::Define(_, a) => nodes_spans_wf(a),
        _ => n.span.start <= n.span.end,
    }
}

pub open spec fn nodes_spans_wf(ns: Seq<NodeV>) -> bool
    decreases ns,
{
    if ns.len() == 0 {
        true
    } else {
        node_spans_wf(ns[0]) && nodes_spans_wf(ns.subrange(1, ns.len() as int))
    }
}

proof fn lemma_nodes_spans_wf_cons(n: NodeV, ns: Seq<NodeV>)
    ensures
        nodes_spans_wf(seq![n] + ns) == (node_spans_wf(n) && nodes_spans_wf(ns)),
{
    assert((seq![n] + ns)[0] == n);
    assert((seq![n] + ns).subrange(1, (seq![n] + ns).len() as int) =~= ns);
}

/// A token's span start never exceeds a later token's span end.
proof fn lemma_span_chain(ts: Seq<TokenV>, a: int, b: int)
    requires
        crate::lexer::spans_ordered(ts),
        0 <= a <= b < ts.len(),
    ensures
        ts[a].span.start <= ts[b].span.end,
    decreases b - a,
{
    if a < b {
        lemma_span_chain(ts, a + 1, b);
    }
}

proof fn lemma_sp_sym_directive_spans(ts: Seq<TokenV>, st: PState, which: int)
    requires
        tokens_wf(ts),
        crate::lexer::spans_ordered(ts),
        0 <= st.cur < ts.len(),
        ts[st.cur].kind == directive_kind_of(which),
    ensures
        match sp_sym_directive(ts, st, which) {
            PNode::Good(n, st2) => node_spans_wf(n) && st.cur < st2.cur < ts.len() && st2.stack
                == st.stack,
            PNode::Fail(e, st2) => st.cur <= st2.cur < ts.len() && st2.stack == st.stack,
        },
{
    assert(ts[st.cur].kind != TokenKindV::Eof);
    assert(st.cur != ts.len() - 1);
    let t2 = ts[st.cur + 1];
    match t2.kind {
        TokenKindV::Sym(name) => {
            assert(st.cur + 1 != ts.len() - 1);
            lemma_span_chain(ts, st.cur, st.cur + 1);
        },
        _ => {},
    }
}

/// Every node a successful `sp_parse_node` yields satisfies the span
/// invariant, the cursor advances past at least one token, and the
/// open-delimiter stack is restored; on failure the cursor stays in
/// bounds and the stack only grows, staying unchanged whenever the
/// failing lookahead is a closer or end-of-input.
proof fn lemma_sp_parse_node_spans(ts: Seq<TokenV>, st: PState)
    requires
        tokens_wf(ts),
        crate::lexer::spans_ordered(ts),
        0 <= st.cur < ts.len(),
    ensures
        match sp_parse_node(ts, st) {
            PNode::Good(n, st2) => node_spans_wf(n) && st.cur < st2.cur < ts.len() && st2.stack
                == st.stack,
            PNode::Fail(e, st2) => st.cur <= st2.cur < ts.len() && st2.stack.len()
                >= st.stack.len() && (is_recovery_or_eof(ts[st2.cur].kind) ==> st2.stack
                == st.stack),
        },
    decreases ts.len() - st.cur, 0int,
{
    let t = ts[st.cur];
    if is_leaf_kind(t.kind) {
        assert(t.kind != TokenKindV::Eof);
        assert(st.cur != ts.len() - 1);
    } else {
        match t.kind {
            TokenKindV::IfDef => lemma_sp_sym_directive_spans(ts, st, 0),
            TokenKindV::Incl => lemma_sp_sym_directive_spans(ts, st, 1),
            TokenKindV::Merge => lemma_sp_sym_directive_spans(ts, st, 2),
            TokenKindV::IfNDef => lemma_sp_sym_directive_spans(ts, st, 3),
            TokenKindV::UnDef => lemma_sp_sym_directive_spans(ts, st, 4),
            TokenKindV::LParen => {
                assert(st.cur != ts.len() - 1);
                let st1 = PState { cur: st.cur + 1, stack: st.stack.push(t.span), diags: st.diags };
                lemma_sp_parse_list_spans(ts, Closer::RParen, st1);
                match sp_parse_list(ts, Closer::RParen, st1) {
                    PList::Good(ns, st2) => {
                        lemma_span_chain(ts, st.cur, st2.cur - 1);
                        assert(st1.stack.drop_last() =~= st.stack);
                    },
                    PList::Fail(e, st2) => {},
                }
            },
            TokenKindV::LBracket => {
                assert(st.cur != ts.len() - 1);
                let st1 = PState { cur: st.cur + 1, stack: st.stack.push(t.span), diags: st.diags };
                lemma_sp_parse_list_spans(ts, Closer::RBracket, st1);
                match sp_parse_list(ts, Closer::RBracket, st1) {
                    PList::Good(ns, st2) => {
                        lemma_span_chain(ts, st.cur, st2.cur - 1);
                        assert(st1.stack.drop_last() =~= st.stack);
                    },
                    PList::Fail(e, st2) => {},
                }
            },
            TokenKindV::LBrace => {
                assert(st.cur != ts.len() - 1);
                let st1 = PState { cur: st.cur + 1, stack: st.stack.push(t.span), diags: st.diags };
                lemma_sp_parse_list_spans(ts, Closer::RBrace, st1);
                match sp_parse_list(ts, Closer::RBrace, st1) {
                    PList::Good(ns, st2) => {
                        lemma_span_chain(ts, st.cur, st2.cur - 1);
                        assert(st1.stack.drop_last() =~= st.stack);
                    },
                    PList::Fail(e, st2) => {},
                }
            },
            TokenKindV::Define => {
                assert(st.cur != ts.len() - 1);
                let t2 = ts[st.cur + 1];
                match t2.kind {
                    TokenKindV::Sym(name) => {
                        assert(st.cur + 1 != ts.len() - 1);
                        let t3 = ts[st.cur + 2];
                        if t3.kind == TokenKindV::LParen {
                            assert(st.cur + 2 != ts.len() - 1);
                            let st1 = PState {
                                cur: st.cur + 3,
                                stack: st.stack.push(t3.span),
                                diags: st.diags,
                            };
                            lemma_sp_parse_list_spans(ts, Closer::RParen, st1);
                            match sp_parse_list(ts, Closer::RParen, st1) {
                                PList::Good(ns, st2) => {
                                    assert(st1.stack.drop_last() =~= st.stack);
                                },
                                PList::Fail(e, st2) => {},
                            }
                        }
                    },
                    _ => {},
                }
            },
            _ => {},
        }
    }
}

/// Every node list a successful `sp_parse_list` yields satisfies the span
/// invariant, and the stop delimiter (when not end-of-input) pops exactly
/// the innermost open frame.
proof fn lemma_sp_parse_list_spans(ts: Seq<TokenV>, stop: Closer, st: PState)
    requires
        tokens_wf(ts),
        crate::lexer::spans_ordered(ts),
        0 <= st.cur < ts.len(),
        stop != Closer::Eof ==> st.stack.len() >= 1,
    ensures
        match sp_parse_list(ts, stop, st) {
            PList::Good(ns, st2) => nodes_spans_wf(ns) && st.cur <= st2.cur <= ts.len() && (stop
                != Closer::Eof ==> st2.cur < ts.len() && st2.stack == st.stack.drop_last()),
            PList::Fail(e, st2) => st.cur <= st2.cur < ts.len() && st2.stack.len()
                >= st.stack.len() && (st.stack.len() >= 1 ==> !is_recovery_or_eof(
                ts[st2.cur].kind,
            )),
        },
    decreases ts.len() - st.cur, 1int,
{
    let t = ts[st.cur];
    if closer_matches(t.kind, stop) {
        if t.kind != TokenKindV::Eof {
            assert(st.cur != ts.len() - 1);
        }
    } else {
        lemma_sp_parse_node_spans(ts, st);
        match sp_parse_node(ts, st) {
            PNode::Good(n, st2) => {
                lemma_sp_parse_list_spans(ts, stop, st2);
                match sp_parse_list(ts, stop, st2) {
                    PList::Good(ns, st3) => {
                        lemma_nodes_spans_wf_cons(n, ns);
                    },
                    PList::Fail(e, st3) => {},
                }
            },
            PNode::Fail(e, st2) => {
                if st2.stack.len() > 0 {
                    let tk = ts[st2.cur];
                    if is_recovery_kind(tk.kind) {
                        assert(st2.cur != ts.len() - 1);
                        assert(st2.stack == st.stack);
                        assert(nodes_spans_wf(Seq::<NodeV>::empty()));
                    } else if tk.kind == TokenKindV::Eof {
                        assert(st2.stack == st.stack);
                        assert(nodes_spans_wf(Seq::<NodeV>::empty()));
                    }
                }
            },
        }
    }
}

/// The span invariant of the data model: every node of a successfully
/// parsed well-formed token stream with ordered spans has a well-ordered
/// span, except a define's documented clamped span, and so on down the
/// tree.
pub proof fn lemma_parse_spans_wf(ts: Seq<TokenV>)
    requires
        tokens_wf(ts),
        crate::lexer::spans_ordered(ts),
    ensures
        sp_parse(ts).ok ==> nodes_spans_wf(sp_parse(ts).nodes),
{
    let init = PState { cur: 0, stack: Seq::empty(), diags: Seq::empty() };
    lemma_sp_parse_list_spans(ts, Closer::Eof, init);
}

/// The preprocessor-directive node kinds.
pub open spec fn is_preproc_kind(k: NodeKindV) -> bool {
    match k {
        NodeKindV::IfDef(_) => true,
        NodeKindV::Else => true,
        NodeKindV::EndIf => true,
        NodeKindV::Define(_, _) => true,
        NodeKindV::Incl(_) => true,
        NodeKindV::Merge(_) => true,
        NodeKindV::IfNDef(_) => true,
        NodeKindV::Autorun => true,
        NodeKindV::Undef(_) => true,
        _ => false,
    }
}

impl Node {
    /// Whether this node is a preprocessor directive.
    pub fn is_preproc(&self) -> (r: bool)
        ensures
            r == is_preproc_kind(self.deep_view().kind),
    {
        matches!(
            self.kind,
            NodeKind::IfDef(_) | NodeKind::Else | NodeKind::EndIf | NodeKind::Define(_, _)
                | NodeKind::Incl(_) | NodeKind::Merge(_) | NodeKind::IfNDef(_) | NodeKind::Autorun
                | NodeKind::Undef(_)
        )
    }
}

} // verus!
