//! Structural lint passes over the parsed tree and the raw token stream:
//! argument-arity checking against a configurable function-signature trie,
//! preprocessor-directive balance checking, and a switch-fallthrough
//! heuristic.  Each pass only reads its input and appends diagnostics.
use crate::diag::Diagnostic;
use crate::diag::DiagnosticV;
use crate::diag::Label;
use crate::diag::LabelStyle;
use crate::diag::LabelV;
use crate::diag::Severity;
use crate::diag::diags_view;
use crate::diag::lemma_diags_view_push;
use crate::diag::m_calling_prefix;
use crate::diag::m_consider_fallthrough;
use crate::diag::m_extraneous_directive;
use crate::diag::m_missing_fallthrough;
use crate::diag::m_not_enough_label;
use crate::diag::m_too_few_suffix;
use crate::diag::m_too_many_label;
use crate::diag::m_too_many_suffix;
use crate::diag::m_unmatched_directive;
use crate::diag::msg_calling_prefix;
use crate::diag::msg_consider_fallthrough;
use crate::diag::msg_extraneous_directive;
use crate::diag::msg_missing_fallthrough;
use crate::diag::msg_not_enough_label;
use crate::diag::msg_too_few_suffix;
use crate::diag::msg_too_many_label;
use crate::diag::msg_too_many_suffix;
use crate::diag::msg_unmatched_directive;
use crate::diag::parse_lint_diag_v;
use crate::lexer::Span;
use crate::lexer::Token;
use crate::lexer::TokenKindV;
use crate::lexer::TokenV;
use crate::lexer::bytes_eq;
use crate::lexer::spec_lex;
use crate::lexer::tokens_view;
use crate::parser::Node;
use crate::parser::NodeKindV;
use crate::parser::NodeV;
use crate::parser::deep_view_nodes;
use crate::parser::is_preproc_kind;
use crate::parser::lemma_deep_view_nodes;
use crate::parser::sp_parse;
use vstd::prelude::*;

verus! {

// ---------------------------------------------------------------------------
// The function-signature trie
// ---------------------------------------------------------------------------

/// One trie node: argument-count bounds for the command path ending here,
/// and the children keyed by the next path word.  Defaults are no lower
/// bound and an unbounded upper bound.
pub struct Function {
    pub min_args: usize,
    pub max_args: usize,
    pub children: Vec<(Vec<u8>, Function)>,
}

/// Mathematical mirror of `Function`.
pub ghost struct FunctionV {
    pub min_args: usize,
    pub max_args: usize,
    pub children: Seq<(Seq<u8>, FunctionV)>,
}

pub open spec fn func_view(f: Function) -> FunctionV
    decreases f,
{
    FunctionV {
        min_args: f.min_args,
        max_args: f.max_args,
        children: children_view(f.children@),
    }
}

pub open spec fn children_view(s: Seq<(Vec<u8>, Function)>) -> Seq<(Seq<u8>, FunctionV)>
    decreases s,
{
    if s.len() == 0 {
        Seq::empty()
    } else {
        seq![(s[0].0@, func_view(s[0].1))] + children_view(s.subrange(1, s.len() as int))
    }
}

pub proof fn lemma_children_view(s: Seq<(Vec<u8>, Function)>)
    ensures
        children_view(s).len() == s.len(),
        forall|i: int|
            0 <= i < s.len() ==> children_view(s)[i] == (s[i].0@, func_view(s[i].1)),
    decreases s.len(),
{
    if s.len() > 0 {
        lemma_children_view(s.subrange(1, s.len() as int));
    }
}

/// The trie node with default bounds and no children.
pub open spec fn default_func_v() -> FunctionV {
    FunctionV { min_args: 0, max_args: usize::MAX, children: Seq::empty() }
}

impl Default for Function {
    /// The default trie node: no lower bound, unbounded upper bound.
    fn default() -> (r: Self)
        ensures
            func_view(r) == default_func_v(),
    {
        let r = Function { min_args: 0, max_args: usize::MAX, children: Vec::new() };
        proof {
            assert(func_view(r).children =~= default_func_v().children);
        }
        r
    }
}

/// Index of the first child keyed `name` at or after `i`, or -1.
pub open spec fn child_index(cs: Seq<(Seq<u8>, FunctionV)>, name: Seq<u8>, i: int) -> int
    decreases cs.len() - i,
{
    if !(0 <= i < cs.len()) {
        -1
    } else if cs[i].0 == name {
        i
    } else {
        child_index(cs, name, i + 1)
    }
}

/// Walk the trie consuming leading symbol children while a matching child
/// exists, and return the node reached with the number of words consumed.
pub open spec fn sp_lookup(f: FunctionV, stmt: Seq<NodeV>, i: int) -> (FunctionV, int)
    decreases stmt.len() - i,
{
    if f.children.len() == 0 {
        (f, i)
    } else if !(0 <= i < stmt.len()) {
        (f, i)
    } else {
        match stmt[i].kind {
            NodeKindV::Symbol(sym) => {
                let j = child_index(f.children, sym, 0);
                if j < 0 {
                    (f, i)
                } else {
                    sp_lookup(f.children[j].1, stmt, i + 1)
                }
            },
            _ => (f, i),
        }
    }
}

/// The updated trie after setting the bounds at `path[i..]`, creating
/// default nodes along the way.  The bounds at the end of the path are
/// replaced; that node's children are kept.
pub open spec fn sp_insert(
    f: FunctionV,
    path: Seq<Seq<u8>>,
    i: int,
    mn: usize,
    mx: usize,
) -> FunctionV
    decreases path.len() - i,
{
    if !(0 <= i < path.len()) {
        FunctionV { min_args: mn, max_args: mx, children: f.children }
    } else {
        let j = child_index(f.children, path[i], 0);
        if j >= 0 {
            FunctionV {
                min_args: f.min_args,
                max_args: f.max_args,
                children: f.children.update(
                    j,
                    (f.children[j].0, sp_insert(f.children[j].1, path, i + 1, mn, mx)),
                ),
            }
        } else {
            FunctionV {
                min_args: f.min_args,
                max_args: f.max_args,
                children: f.children.push(
                    (path[i], sp_insert(default_func_v(), path, i + 1, mn, mx)),
                ),
            }
        }
    }
}

/// The byte-sequence views of a key path.
pub open spec fn path_view(s: Seq<Vec<u8>>) -> Seq<Seq<u8>> {
    s.map_values(|v: Vec<u8>| v@)
}

impl Function {
    /// Find the first child index keyed by `name`, mirroring `child_index`.
    fn find_child(&self, name: &[u8]) -> (r: Option<usize>)
        ensures
            ({
                let j = child_index(children_view(self.children@), name@, 0);
                match r {
                    Some(k) => j == k && k < self.children@.len(),
                    None => j == -1,
                }
            }),
    {
        let ghost cs = children_view(self.children@);
        proof {
            lemma_children_view(self.children@);
        }
        let mut k: usize = 0;
        while k < self.children.len()
            invariant
                k <= self.children@.len(),
                cs == children_view(self.children@),
                cs.len() == self.children@.len(),
                forall|i: int|
                    0 <= i < self.children@.len() ==> cs[i] == (
                    self.children@[i].0@,
                    func_view(self.children@[i].1),
                ),
                child_index(cs, name@, 0) == child_index(cs, name@, k as int),
            decreases self.children@.len() - k,
        {
            let pair = &self.children[k];
            if bytes_eq(pair.0.as_slice(), name) {
                return Some(k);
            }
            k = k + 1;
        }
        None
    }

    /// Walk the trie consuming leading symbol-valued children one at a
    /// time while a matching child exists; stop at the first non-symbol
    /// child, the first unmatched name, or a node with no children.
    pub fn lookup(&self, stmt: &Vec<Node>) -> (r: (&Function, usize))
        ensures
            ({
                let lk = sp_lookup(func_view(*self), deep_view_nodes(stmt@), 0);
                func_view(*r.0) == lk.0 && r.1 == lk.1
            }),
            r.1 <= stmt@.len(),
            forall|i: int|
                0 <= i < r.1 ==> (#[trigger] deep_view_nodes(stmt@)[i].kind) is Symbol,
    {
        proof {
            lemma_deep_view_nodes(stmt@);
        }
        self.lookup_at(stmt, 0)
    }

    fn lookup_at(&self, stmt: &Vec<Node>, i: usize) -> (r: (&Function, usize))
        requires
            i <= stmt@.len(),
        ensures
            ({
                let lk = sp_lookup(func_view(*self), deep_view_nodes(stmt@), i as int);
                func_view(*r.0) == lk.0 && r.1 == lk.1
            }),
            i <= r.1 <= stmt@.len(),
            forall|k: int|
                i <= k < r.1 ==> (#[trigger] deep_view_nodes(stmt@)[k].kind) is Symbol,
        decreases stmt@.len() - i,
    {
        proof {
            lemma_deep_view_nodes(stmt@);
        }
        if self.children.is_empty() {
            return (self, i);
        }
        if i >= stmt.len() {
            return (self, i);
        }
        let n = &stmt[i];
        match &n.kind {
            crate::parser::NodeKind::Symbol(sym) => {
                match self.find_child(sym.as_slice()) {
                    Some(j) => {
                        proof {
                            lemma_children_view(self.children@);
                        }
                        let pair = &self.children[j];
                        pair.1.lookup_at(stmt, i + 1)
                    },
                    None => (self, i),
                }
            },
            _ => (self, i),
        }
    }

    /// Set the bounds for a command path, creating default nodes for any
    /// missing words along the way.
    pub fn insert(&mut self, path: &[Vec<u8>], min_args: usize, max_args: usize)
        ensures
            func_view(*final(self)) == sp_insert(
                func_view(*old(self)),
                path_view(path@),
                0,
                min_args,
                max_args,
            ),
    {
        self.insert_at(path, 0, min_args, max_args)
    }

    fn insert_at(&mut self, path: &[Vec<u8>], i: usize, min_args: usize, max_args: usize)
        requires
            i <= path@.len(),
        ensures
            func_view(*final(self)) == sp_insert(
                func_view(*old(self)),
                path_view(path@),
                i as int,
                min_args,
                max_args,
            ),
        decreases path@.len() - i,
    {
        let ghost pv = path_view(path@);
        if i >= path.len() {
            self.min_args = min_args;
            self.max_args = max_args;
            return ;
        }
        proof {
            assert(pv[i as int] == path@[i as int]@);
        }
        let name = &path[i];
        let ghost cs0 = children_view(self.children@);
        match self.find_child(name.as_slice()) {
            Some(j) => {
                let ghost j_ = j as int;
                proof {
                    lemma_children_view(self.children@);
                }
                let mut pair = self.children.remove(j);
                let ghost old_pair = pair;
                pair.1.insert_at(path, i + 1, min_args, max_args);
                let ghost new_child = pair.1;
                self.children.insert(j, pair);
                proof {
                    let cs1 = self.children@;
                    let old_children = old(self).children@;
                    assert(cs1 =~= old_children.update(
                        j_,
                        (old_pair.0, new_child),
                    ));
                    lemma_children_view(cs1);
                    lemma_children_view(old_children);
                    assert(children_view(cs1) =~= cs0.update(
                        j_,
                        (old_pair.0@, func_view(new_child)),
                    ));
                }
            },
            None => {
                let mut child = Function::default();
                child.insert_at(path, i + 1, min_args, max_args);
                let key = crate::lexer::copy_all(name);
                let ghost child_ = child;
                let ghost key_ = key;
                self.children.push((key, child));
                proof {
                    lemma_children_view(self.children@);
                    lemma_children_view(old(self).children@);
                    assert(children_view(self.children@) =~= cs0.push(
                        (key_@, func_view(child_)),
                    ));
                }
            },
        }
    }
}

// ---------------------------------------------------------------------------
// Arity lint
// ---------------------------------------------------------------------------

/// An arity finding: the space-joined command name and the statement span.
#[derive(Debug)]
pub enum FunctionArgLint {
    TooManyArgs(Vec<u8>, Span),
    NotEnoughArgs(Vec<u8>, Span),
}

/// The diagnostic of a too-many-arguments finding.
pub open spec fn too_many_diag_v(name: Seq<u8>, span: Span) -> DiagnosticV {
    DiagnosticV {
        severity: Severity::Error,
        message: m_calling_prefix() + name + m_too_many_suffix(),
        labels: seq![LabelV { style: LabelStyle::Primary, span, message: m_too_many_label() }],
    }
}

/// The diagnostic of a too-few-arguments finding.
pub open spec fn too_few_diag_v(name: Seq<u8>, span: Span) -> DiagnosticV {
    DiagnosticV {
        severity: Severity::Error,
        message: m_calling_prefix() + name + m_too_few_suffix(),
        labels: seq![LabelV { style: LabelStyle::Primary, span, message: m_not_enough_label() }],
    }
}

pub open spec fn fal_diag_v(l: FunctionArgLint) -> DiagnosticV {
    match l {
        FunctionArgLint::TooManyArgs(name, span) => too_many_diag_v(name@, span),
        FunctionArgLint::NotEnoughArgs(name, span) => too_few_diag_v(name@, span),
    }
}

/// Append the bytes of `src` to `dst`.
fn push_bytes(dst: &mut Vec<u8>, src: &[u8])
    ensures
        final(dst)@ == old(dst)@ + src@,
{
    let mut k: usize = 0;
    while k < src.len()
        invariant
            k <= src@.len(),
            dst@ == old(dst)@ + src@.take(k as int),
        decreases src@.len() - k,
    {
        let b = src[k];
        proof {
            assert(old(dst)@ + src@.take(k + 1) =~= (old(dst)@ + src@.take(k as int)).push(b));
        }
        dst.push(b);
        k = k + 1;
    }
    proof {
        assert(src@.take(src@.len() as int) =~= src@);
    }
}

impl FunctionArgLint {
    /// Render this arity finding as a diagnostic.
    pub fn to_diagnostic(&self) -> (r: Diagnostic)
        ensures
            r@ == fal_diag_v(*self),
    {
        match self {
            FunctionArgLint::TooManyArgs(name, span) => {
                let mut m = msg_calling_prefix();
                push_bytes(&mut m, name.as_slice());
                let suf = msg_too_many_suffix();
                push_bytes(&mut m, suf.as_slice());
                let mut labels: Vec<Label> = Vec::new();
                labels.push(
                    Label { style: LabelStyle::Primary, span: *span, message: msg_too_many_label() },
                );
                let r = Diagnostic { severity: Severity::Error, message: m, labels };
                proof {
                    assert(r@.labels =~= fal_diag_v(*self).labels);
                }
                r
            },
            FunctionArgLint::NotEnoughArgs(name, span) => {
                let mut m = msg_calling_prefix();
                push_bytes(&mut m, name.as_slice());
                let suf = msg_too_few_suffix();
                push_bytes(&mut m, suf.as_slice());
                let mut labels: Vec<Label> = Vec::new();
                labels.push(
                    Label {
                        style: LabelStyle::Primary,
                        span: *span,
                        message: msg_not_enough_label(),
                    },
                );
                let r = Diagnostic { severity: Severity::Error, message: m, labels };
                proof {
                    assert(r@.labels =~= fal_diag_v(*self).labels);
                }
                r
            },
        }
    }
}

/// The symbol bytes of a node, or empty for a non-symbol.
pub open spec fn sym_bytes_of(n: NodeV) -> Seq<u8> {
    match n.kind {
        NodeKindV::Symbol(s) => s,
        _ => Seq::empty(),
    }
}

/// The space-joined name of a run of leading symbol children.
pub open spec fn sp_fn_name(ns: Seq<NodeV>) -> Seq<u8>
    decreases ns.len(),
{
    if ns.len() == 0 {
        Seq::empty()
    } else if ns.len() == 1 {
        sym_bytes_of(ns[0])
    } else {
        sym_bytes_of(ns[0]) + seq![32u8] + sp_fn_name(ns.subrange(1, ns.len() as int))
    }
}

proof fn lemma_sp_fn_name_snoc(s: Seq<NodeV>, x: NodeV)
    ensures
        sp_fn_name(s.push(x)) == if s.len() == 0 {
            sym_bytes_of(x)
        } else {
            sp_fn_name(s) + seq![32u8] + sym_bytes_of(x)
        },
    decreases s.len(),
{
    if s.len() == 0 {
        assert(s.push(x)[0] == x);
    } else {
        let rest = s.subrange(1, s.len() as int);
        assert(s.push(x).subrange(1, s.push(x).len() as int) =~= rest.push(x));
        lemma_sp_fn_name_snoc(rest, x);
        if s.len() == 1 {
            assert(rest.len() == 0);
            assert(sp_fn_name(s.push(x)) == sym_bytes_of(s[0]) + seq![32u8] + sym_bytes_of(x));
            assert(sp_fn_name(s) == sym_bytes_of(s[0]));
        } else {
            assert(sp_fn_name(s.push(x)) == sym_bytes_of(s[0]) + seq![32u8] + (sp_fn_name(rest)
                + seq![32u8] + sym_bytes_of(x)));
            assert(sym_bytes_of(s[0]) + seq![32u8] + (sp_fn_name(rest) + seq![32u8] + sym_bytes_of(
                x,
            )) =~= (sym_bytes_of(s[0]) + seq![32u8] + sp_fn_name(rest)) + seq![32u8] + sym_bytes_of(
                x,
            ));
        }
    }
}

/// The space-joined name of the first `depth` children.
fn generate_function_name(stmt: &Vec<Node>, depth: usize) -> (r: Vec<u8>)
    requires
        depth <= stmt@.len(),
    ensures
        r@ == sp_fn_name(deep_view_nodes(stmt@).take(depth as int)),
{
    let ghost dvn = deep_view_nodes(stmt@);
    proof {
        lemma_deep_view_nodes(stmt@);
    }
    let mut r: Vec<u8> = Vec::new();
    let mut k: usize = 0;
    while k < depth
        invariant
            k <= depth <= stmt@.len(),
            dvn == deep_view_nodes(stmt@),
            dvn.len() == stmt@.len(),
            forall|i: int| 0 <= i < stmt@.len() ==> dvn[i] == stmt@[i].deep_view(),
            r@ == sp_fn_name(dvn.take(k as int)),
        decreases depth - k,
    {
        proof {
            lemma_sp_fn_name_snoc(dvn.take(k as int), dvn[k as int]);
            assert(dvn.take(k + 1) =~= dvn.take(k as int).push(dvn[k as int]));
        }
        if k > 0 {
            r.push(32);
        }
        let n = &stmt[k];
        match &n.kind {
            crate::parser::NodeKind::Symbol(s) => {
                push_bytes(&mut r, s.as_slice());
            },
            _ => {
                proof {
                    assert(sym_bytes_of(dvn[k as int]) =~= Seq::<u8>::empty());
                    assert(r@ =~= sp_fn_name(dvn.take(k + 1)));
                }
            },
        }
        k = k + 1;
    }
    r
}

/// The arity diagnostics of one qualifying statement: compare its child
/// count against the reached trie node's bounds shifted by the consumed
/// name words; below the minimum is too few, above the maximum too many.
pub open spec fn sp_arity_diags(a: Seq<NodeV>, span: Span, f: FunctionV) -> Seq<DiagnosticV> {
    let lk = sp_lookup(f, a, 0);
    let g = lk.0;
    let depth = lk.1;
    let name = sp_fn_name(a.take(depth));
    if a.len() > g.max_args + depth {
        seq![too_many_diag_v(name, span)]
    } else if a.len() < g.min_args + depth {
        seq![too_few_diag_v(name, span)]
    } else {
        Seq::empty()
    }
}

/// Check one qualifying statement against the signature trie.
fn lint_fn_args(lints: &mut Vec<Diagnostic>, stmt: &Vec<Node>, span: Span, funcs: &Function)
    ensures
        diags_view(final(lints)@) == diags_view(old(lints)@) + sp_arity_diags(
            deep_view_nodes(stmt@),
            span,
            func_view(*funcs),
        ),
{
    proof {
        lemma_deep_view_nodes(stmt@);
    }
    let ghost a = deep_view_nodes(stmt@);
    let (func, depth) = funcs.lookup(stmt);
    let name = generate_function_name(stmt, depth);
    if stmt.len() > depth && stmt.len() - depth > func.max_args {
        let l = FunctionArgLint::TooManyArgs(name, span);
        let d = l.to_diagnostic();
        proof {
            lemma_diags_view_push(lints@, d);
            assert(diags_view(lints@).push(d@) =~= diags_view(lints@) + seq![d@]);
        }
        lints.push(d);
    } else if stmt.len() - depth < func.min_args {
        let l = FunctionArgLint::NotEnoughArgs(name, span);
        let d = l.to_diagnostic();
        proof {
            lemma_diags_view_push(lints@, d);
            assert(diags_view(lints@).push(d@) =~= diags_view(lints@) + seq![d@]);
        }
        lints.push(d);
    } else {
        proof {
            assert(diags_view(lints@) =~= diags_view(lints@) + Seq::<DiagnosticV>::empty());
        }
    }
}

// ---------------------------------------------------------------------------
// Tree walk shared by the arity and fallthrough passes
// ---------------------------------------------------------------------------

/// Whether any immediate child is a preprocessor-directive node.
pub open spec fn sp_has_preproc(a: Seq<NodeV>) -> bool {
    exists|i: int| 0 <= i < a.len() && is_preproc_kind(a[i].kind)
}

fn has_preproc(a: &Vec<Node>) -> (r: bool)
    ensures
        r == sp_has_preproc(deep_view_nodes(a@)),
{
    let ghost dvn = deep_view_nodes(a@);
    proof {
        lemma_deep_view_nodes(a@);
    }
    let mut k: usize = 0;
    while k < a.len()
        invariant
            k <= a@.len(),
            dvn == deep_view_nodes(a@),
            dvn.len() == a@.len(),
            forall|i: int| 0 <= i < a@.len() ==> dvn[i] == a@[i].deep_view(),
            forall|i: int| 0 <= i < k ==> !is_preproc_kind(dvn[i].kind),
        decreases a@.len() - k,
    {
        if a[k].is_preproc() {
            proof {
                assert(is_preproc_kind(dvn[k as int].kind));
            }
            return true;
        }
        k = k + 1;
    }
    false
}

/// The arity diagnostics of a node list, in discovery order: children are
/// visited before their own statement is checked, and a statement with a
/// preprocessor-directive child is skipped (its children still visited).
pub open spec fn sp_lint_nodes(ns: Seq<NodeV>, f: FunctionV) -> Seq<DiagnosticV>
    decreases ns,
{
    if ns.len() == 0 {
        Seq::empty()
    } else {
        sp_lint_node(ns[0], f) + sp_lint_nodes(ns.subrange(1, ns.len() as int), f)
    }
}

pub open spec fn sp_lint_node(n: NodeV, f: FunctionV) -> Seq<DiagnosticV>
    decreases n,
{
    match n.kind {
        NodeKindV::Array(a) => sp_lint_nodes(a, f),
        NodeKindV::Prop(a) => sp_lint_nodes(a, f),
        NodeKindV::Define(_, a) => sp_lint_nodes(a, f),
        NodeKindV::Stmt(a) => sp_lint_nodes(a, f) + if !sp_has_preproc(a) {
            sp_arity_diags(a, n.span, f)
        } else {
            Seq::empty()
        },
        _ => Seq::empty(),
    }
}

proof fn lemma_sp_lint_nodes_snoc(s: Seq<NodeV>, x: NodeV, f: FunctionV)
    ensures
        sp_lint_nodes(s.push(x), f) == sp_lint_nodes(s, f) + sp_lint_node(x, f),
    decreases s.len(),
{
    if s.len() == 0 {
        reveal_with_fuel(sp_lint_nodes, 2);
        assert(s.push(x)[0] == x);
        assert(s.push(x).subrange(1, s.push(x).len() as int) =~= Seq::<NodeV>::empty());
        assert(sp_lint_nodes(s.push(x), f) =~= sp_lint_node(x, f));
        assert(sp_lint_nodes(s, f) + sp_lint_node(x, f) =~= sp_lint_node(x, f));
    } else {
        let rest = s.subrange(1, s.len() as int);
        assert(s.push(x).subrange(1, s.push(x).len() as int) =~= rest.push(x));
        lemma_sp_lint_nodes_snoc(rest, x, f);
        assert(sp_lint_node(s[0], f) + (sp_lint_nodes(rest, f) + sp_lint_node(x, f)) =~= (
        sp_lint_node(s[0], f) + sp_lint_nodes(rest, f)) + sp_lint_node(x, f));
    }
}

/// Visit a node list, appending arity diagnostics in discovery order.
fn lint_node(lints: &mut Vec<Diagnostic>, ast: &Vec<Node>, funcs: &Function)
    ensures
        diags_view(final(lints)@) == diags_view(old(lints)@) + sp_lint_nodes(
            deep_view_nodes(ast@),
            func_view(*funcs),
        ),
    decreases ast@,
{
    let ghost dvn = deep_view_nodes(ast@);
    let ghost f = func_view(*funcs);
    proof {
        lemma_deep_view_nodes(ast@);
    }
    let mut k: usize = 0;
    while k < ast.len()
        invariant
            k <= ast@.len(),
            dvn == deep_view_nodes(ast@),
            f == func_view(*funcs),
            dvn.len() == ast@.len(),
            forall|i: int| 0 <= i < ast@.len() ==> dvn[i] == ast@[i].deep_view(),
            diags_view(lints@) == diags_view(old(lints)@) + sp_lint_nodes(
                dvn.take(k as int),
                f,
            ),
        decreases ast@.len() - k,
    {
        proof {
            lemma_sp_lint_nodes_snoc(dvn.take(k as int), dvn[k as int], f);
            assert(dvn.take(k + 1) =~= dvn.take(k as int).push(dvn[k as int]));
            assert(decreases_to!(ast@ => ast@[k as int]));
        }
        let ghost pre = diags_view(lints@);
        let n = &ast[k];
        match &n.kind {
            crate::parser::NodeKind::Array(a) => {
                proof {
                    assert(decreases_to!(ast@[k as int] => *a));
                }
                lint_node(lints, a, funcs);
            },
            crate::parser::NodeKind::Prop(a) => {
                proof {
                    assert(decreases_to!(ast@[k as int] => *a));
                }
                lint_node(lints, a, funcs);
            },
            crate::parser::NodeKind::Define(_, a) => {
                proof {
                    assert(decreases_to!(ast@[k as int] => *a));
                }
                lint_node(lints, a, funcs);
            },
            crate::parser::NodeKind::Stmt(a) => {
                proof {
                    assert(decreases_to!(ast@[k as int] => *a));
                }
                lint_node(lints, a, funcs);
                let hp = has_preproc(a);
                if !hp {
                    lint_fn_args(lints, a, n.span, funcs);
                }
            },
            _ => {},
        }
        proof {
            assert(diags_view(lints@) =~= diags_view(old(lints)@) + sp_lint_nodes(
                dvn.take(k + 1),
                f,
            ));
        }
        k = k + 1;
    }
    proof {
        assert(dvn.take(ast@.len() as int) =~= dvn);
    }
}

/// The arity pass over a parsed tree.
pub fn lint_file(ast: &Vec<Node>, funcs: &Function) -> (r: Vec<Diagnostic>)
    ensures
        diags_view(r@) == sp_lint_nodes(deep_view_nodes(ast@), func_view(*funcs)),
{
    let mut lints: Vec<Diagnostic> = Vec::new();
    proof {
        assert(diags_view(lints@) =~= Seq::<DiagnosticV>::empty());
    }
    lint_node(&mut lints, ast, funcs);
    lints
}

// ---------------------------------------------------------------------------
// Switch-fallthrough lint
// ---------------------------------------------------------------------------

/// A fallthrough warning: the whole statement span and the position just
/// before the closing brace.
#[derive(Clone, Copy, Debug, PartialEq, Eq, Structural)]
pub struct SwitchFallthroughLint(pub Span, pub Span);

/// The bytes of `switch`.
pub open spec fn kw_switch() -> Seq<u8> {
    seq![115u8, 119u8, 105u8, 116u8, 99u8, 104u8]
}

pub open spec fn switch_diag_v(l: SwitchFallthroughLint) -> DiagnosticV {
    DiagnosticV {
        severity: Severity::Warning,
        message: m_missing_fallthrough(),
        labels: seq![
            LabelV { style: LabelStyle::Primary, span: l.0, message: Seq::empty() },
            LabelV { style: LabelStyle::Secondary, span: l.1, message: m_consider_fallthrough() },
        ],
    }
}

impl SwitchFallthroughLint {
    /// Render this fallthrough warning as a diagnostic.
    pub fn to_diagnostic(&self) -> (r: Diagnostic)
        ensures
            r@ == switch_diag_v(*self),
    {
        let mut labels: Vec<Label> = Vec::new();
        labels.push(Label { style: LabelStyle::Primary, span: self.0, message: Vec::new() });
        labels.push(
            Label { style: LabelStyle::Secondary, span: self.1, message: msg_consider_fallthrough() },
        );
        let r = Diagnostic {
            severity: Severity::Warning,
            message: msg_missing_fallthrough(),
            labels,
        };
        proof {
            assert(r@.labels =~= switch_diag_v(*self).labels);
        }
        r
    }
}

/// The fallthrough warning of one qualifying statement: first child the
/// symbol `switch` and last child an array.
pub open spec fn sp_switch_check(a: Seq<NodeV>, span: Span) -> Seq<DiagnosticV> {
    if a.len() > 0 && a[0].kind == NodeKindV::Symbol(kw_switch()) && a.last().kind is Array {
        let pos: usize = if span.end > 0 {
            (span.end - 1) as usize
        } else {
            0
        };
        seq![switch_diag_v(SwitchFallthroughLint(span, Span { start: pos, end: pos }))]
    } else {
        Seq::empty()
    }
}

/// The fallthrough warnings of a node list, walked like the arity pass.
pub open spec fn sp_switch_nodes(ns: Seq<NodeV>) -> Seq<DiagnosticV>
    decreases ns,
{
    if ns.len() == 0 {
        Seq::empty()
    } else {
        sp_switch_node(ns[0]) + sp_switch_nodes(ns.subrange(1, ns.len() as int))
    }
}

pub open spec fn sp_switch_node(n: NodeV) -> Seq<DiagnosticV>
    decreases n,
{
    match n.kind {
        NodeKindV::Array(a) => sp_switch_nodes(a),
        NodeKindV::Prop(a) => sp_switch_nodes(a),
        NodeKindV::Define(_, a) => sp_switch_nodes(a),
        NodeKindV::Stmt(a) => sp_switch_nodes(a) + if !sp_has_preproc(a) {
            sp_switch_check(a, n.span)
        } else {
            Seq::empty()
        },
        _ => Seq::empty(),
    }
}

proof fn lemma_sp_switch_nodes_snoc(s: Seq<NodeV>, x: NodeV)
    ensures
        sp_switch_nodes(s.push(x)) == sp_switch_nodes(s) + sp_switch_node(x),
    decreases s.len(),
{
    if s.len() == 0 {
        reveal_with_fuel(sp_switch_nodes, 2);
        assert(s.push(x)[0] == x);
        assert(s.push(x).subrange(1, s.push(x).len() as int) =~= Seq::<NodeV>::empty());
        assert(sp_switch_nodes(s.push(x)) =~= sp_switch_node(x));
        assert(sp_switch_nodes(s) + sp_switch_node(x) =~= sp_switch_node(x));
    } else {
        let rest = s.subrange(1, s.len() as int);
        assert(s.push(x).subrange(1, s.push(x).len() as int) =~= rest.push(x));
        lemma_sp_switch_nodes_snoc(rest, x);
        assert(sp_switch_node(s[0]) + (sp_switch_nodes(rest) + sp_switch_node(x)) =~= (
        sp_switch_node(s[0]) + sp_switch_nodes(rest)) + sp_switch_node(x));
    }
}

/// Check one qualifying statement for a missing fallthrough marker.
fn lint_switch_one(lints: &mut Vec<Diagnostic>, stmt: &Vec<Node>, span: Span)
    ensures
        diags_view(final(lints)@) == diags_view(old(lints)@) + sp_switch_check(
            deep_view_nodes(stmt@),
            span,
        ),
{
    proof {
        lemma_deep_view_nodes(stmt@);
    }
    let ghost a = deep_view_nodes(stmt@);
    let mut hit = false;
    if stmt.len() > 0 {
        let first = &stmt[0];
        match &first.kind {
            crate::parser::NodeKind::Symbol(sym) => {
                if bytes_eq(sym.as_slice(), &[115, 119, 105, 116, 99, 104]) {
                    proof {
                        assert(a[0].kind == NodeKindV::Symbol(kw_switch())) by {
                            assert(sym@ =~= kw_switch());
                        }
                    }
                    let last = &stmt[stmt.len() - 1];
                    if matches!(last.kind, crate::parser::NodeKind::Array(_)) {
                        hit = true;
                    }
                } else {
                    proof {
                        assert(sym@ != kw_switch()) by {
                            if sym@ == kw_switch() {
                                assert(sym@.len() == 6);
                            }
                        }
                    }
                }
            },
            _ => {},
        }
    }
    if hit {
        let pos: usize = if span.end > 0 {
            span.end - 1
        } else {
            0
        };
        let l = SwitchFallthroughLint(span, Span { start: pos, end: pos });
        let d = l.to_diagnostic();
        proof {
            lemma_diags_view_push(lints@, d);
            assert(diags_view(lints@).push(d@) =~= diags_view(lints@) + seq![d@]);
        }
        lints.push(d);
    } else {
        proof {
            assert(diags_view(lints@) =~= diags_view(lints@) + Seq::<DiagnosticV>::empty());
        }
    }
}

/// Visit a node list, appending fallthrough warnings in discovery order.
fn lint_switch_walk(lints: &mut Vec<Diagnostic>, ast: &Vec<Node>)
    ensures
        diags_view(final(lints)@) == diags_view(old(lints)@) + sp_switch_nodes(
            deep_view_nodes(ast@),
        ),
    decreases ast@,
{
    let ghost dvn = deep_view_nodes(ast@);
    proof {
        lemma_deep_view_nodes(ast@);
    }
    let mut k: usize = 0;
    while k < ast.len()
        invariant
            k <= ast@.len(),
            dvn == deep_view_nodes(ast@),
            dvn.len() == ast@.len(),
            forall|i: int| 0 <= i < ast@.len() ==> dvn[i] == ast@[i].deep_view(),
            diags_view(lints@) == diags_view(old(lints)@) + sp_switch_nodes(dvn.take(k as int)),
        decreases ast@.len() - k,
    {
        proof {
            lemma_sp_switch_nodes_snoc(dvn.take(k as int), dvn[k as int]);
            assert(dvn.take(k + 1) =~= dvn.take(k as int).push(dvn[k as int]));
            assert(decreases_to!(ast@ => ast@[k as int]));
        }
        let n = &ast[k];
        match &n.kind {
            crate::parser::NodeKind::Array(a) => {
                proof {
                    assert(decreases_to!(ast@[k as int] => *a));
                }
                lint_switch_walk(lints, a);
            },
            crate::parser::NodeKind::Prop(a) => {
                proof {
                    assert(decreases_to!(ast@[k as int] => *a));
                }
                lint_switch_walk(lints, a);
            },
            crate::parser::NodeKind::Define(_, a) => {
                proof {
                    assert(decreases_to!(ast@[k as int] => *a));
                }
                lint_switch_walk(lints, a);
            },
            crate::parser::NodeKind::Stmt(a) => {
                proof {
                    assert(decreases_to!(ast@[k as int] => *a));
                }
                lint_switch_walk(lints, a);
                let hp = has_preproc(a);
                if !hp {
                    lint_switch_one(lints, a, n.span);
                }
            },
            _ => {},
        }
        proof {
            assert(diags_view(lints@) =~= diags_view(old(lints)@) + sp_switch_nodes(
                dvn.take(k + 1),
            ));
        }
        k = k + 1;
    }
    proof {
        assert(dvn.take(ast@.len() as int) =~= dvn);
    }
}

/// The switch-fallthrough pass over a parsed tree.
pub fn lint_switch_fallthrough(ast: &Vec<Node>) -> (r: Vec<Diagnostic>)
    ensures
        diags_view(r@) == sp_switch_nodes(deep_view_nodes(ast@)),
{
    let mut lints: Vec<Diagnostic> = Vec::new();
    proof {
        assert(diags_view(lints@) =~= Seq::<DiagnosticV>::empty());
    }
    lint_switch_walk(&mut lints, ast);
    lints
}

// ---------------------------------------------------------------------------
// Preprocessor-balance lint
// ---------------------------------------------------------------------------

/// A balance finding: a directive with no matching opener, or an opener
/// never closed before end of input.
#[derive(Clone, Copy, Debug, PartialEq, Eq, Structural)]
pub enum PreprocLint {
    ExtraneousDirective(Span),
    UnmatchedDirective(Span),
}

pub open spec fn preproc_diag_v(l: PreprocLint) -> DiagnosticV {
    match l {
        PreprocLint::ExtraneousDirective(span) => DiagnosticV {
            severity: Severity::Error,
            message: m_extraneous_directive(),
            labels: seq![
                LabelV { style: LabelStyle::Primary, span, message: m_extraneous_directive() },
            ],
        },
        PreprocLint::UnmatchedDirective(span) => DiagnosticV {
            severity: Severity::Error,
            message: m_unmatched_directive(),
            labels: seq![
                LabelV { style: LabelStyle::Primary, span, message: m_unmatched_directive() },
            ],
        },
    }
}

impl PreprocLint {
    /// Render this balance finding as a diagnostic.
    pub fn to_diagnostic(&self) -> (r: Diagnostic)
        ensures
            r@ == preproc_diag_v(*self),
    {
        match self {
            PreprocLint::ExtraneousDirective(span) => {
                let mut labels: Vec<Label> = Vec::new();
                labels.push(
                    Label {
                        style: LabelStyle::Primary,
                        span: *span,
                        message: msg_extraneous_directive(),
                    },
                );
                let r = Diagnostic {
                    severity: Severity::Error,
                    message: msg_extraneous_directive(),
                    labels,
                };
                proof {
                    assert(r@.labels =~= preproc_diag_v(*self).labels);
                }
                r
            },
            PreprocLint::UnmatchedDirective(span) => {
                let mut labels: Vec<Label> = Vec::new();
                labels.push(
                    Label {
                        style: LabelStyle::Primary,
                        span: *span,
                        message: msg_unmatched_directive(),
                    },
                );
                let r = Diagnostic {
                    severity: Severity::Error,
                    message: msg_unmatched_directive(),
                    labels,
                };
                proof {
                    assert(r@.labels =~= preproc_diag_v(*self).labels);
                }
                r
            },
        }
    }
}

/// The balance findings from token `i` on, given the open conditional
/// frames (opening span, else-already-seen) and the findings so far.
/// Conditional openers push a frame; `#else` flips the top frame to
/// else-seen and is extraneous if there is none or it was already seen;
/// `#endif` pops and is extraneous if there is none; every frame still
/// open at the end of the scan is unmatched, in document order.
pub open spec fn sp_preproc_at(
    ts: Seq<TokenV>,
    i: int,
    stack: Seq<(Span, bool)>,
    acc: Seq<PreprocLint>,
) -> Seq<PreprocLint>
    decreases ts.len() - i,
{
    if !(0 <= i < ts.len()) {
        acc + stack.map_values(|fr: (Span, bool)| PreprocLint::UnmatchedDirective(fr.0))
    } else {
        let t = ts[i];
        match t.kind {
            TokenKindV::IfDef => sp_preproc_at(ts, i + 1, stack.push((t.span, false)), acc),
            TokenKindV::IfNDef => sp_preproc_at(ts, i + 1, stack.push((t.span, false)), acc),
            TokenKindV::Else => {
                if stack.len() == 0 {
                    sp_preproc_at(
                        ts,
                        i + 1,
                        stack,
                        acc.push(PreprocLint::ExtraneousDirective(t.span)),
                    )
                } else {
                    let fr = stack.last();
                    let stack2 = stack.drop_last().push((fr.0, true));
                    let acc2 = if fr.1 {
                        acc.push(PreprocLint::ExtraneousDirective(t.span))
                    } else {
                        acc
                    };
                    sp_preproc_at(ts, i + 1, stack2, acc2)
                }
            },
            TokenKindV::EndIf => {
                if stack.len() == 0 {
                    sp_preproc_at(
                        ts,
                        i + 1,
                        stack,
                        acc.push(PreprocLint::ExtraneousDirective(t.span)),
                    )
                } else {
                    sp_preproc_at(ts, i + 1, stack.drop_last(), acc)
                }
            },
            _ => sp_preproc_at(ts, i + 1, stack, acc),
        }
    }
}

/// The balance findings of a whole token stream.
pub open spec fn sp_preproc(ts: Seq<TokenV>) -> Seq<PreprocLint> {
    sp_preproc_at(ts, 0, Seq::empty(), Seq::empty())
}

/// The balance findings of a whole token stream, as diagnostics.
pub open spec fn sp_preproc_diags(ts: Seq<TokenV>) -> Seq<DiagnosticV> {
    sp_preproc(ts).map_values(|l: PreprocLint| preproc_diag_v(l))
}

/// Scan the raw token stream and append the balance diagnostics.
fn lint_preproc_into(lints: &mut Vec<Diagnostic>, tokens: &[Token])
    ensures
        diags_view(final(lints)@) == diags_view(old(lints)@) + sp_preproc_diags(
            tokens_view(tokens@),
        ),
{
    let ghost ts = tokens_view(tokens@);
    let mut stack: Vec<(Span, bool)> = Vec::new();
    let mut found: Vec<PreprocLint> = Vec::new();
    let mut i: usize = 0;
    proof {
        assert(stack@ =~= Seq::<(Span, bool)>::empty());
        assert(found@ =~= Seq::<PreprocLint>::empty());
    }
    while i < tokens.len()
        invariant
            i <= tokens@.len(),
            ts == tokens_view(tokens@),
            sp_preproc_at(ts, i as int, stack@, found@) == sp_preproc(ts),
        decreases tokens@.len() - i,
    {
        proof {
            assert(ts[i as int] == tokens@[i as int]@);
        }
        let t = &tokens[i];
        match &t.kind {
            crate::lexer::TokenKind::IfDef => {
                stack.push((t.span, false));
            },
            crate::lexer::TokenKind::IfNDef => {
                stack.push((t.span, false));
            },
            crate::lexer::TokenKind::Else => {
                if stack.len() == 0 {
                    found.push(PreprocLint::ExtraneousDirective(t.span));
                } else {
                    let fr = stack[stack.len() - 1];
                    proof {
                        assert(fr == stack@.last());
                    }
                    let _ = stack.pop();
                    stack.push((fr.0, true));
                    if fr.1 {
                        found.push(PreprocLint::ExtraneousDirective(t.span));
                    }
                }
            },
            crate::lexer::TokenKind::EndIf => {
                if stack.len() == 0 {
                    found.push(PreprocLint::ExtraneousDirective(t.span));
                } else {
                    let _ = stack.pop();
                }
            },
            _ => {},
        }
        i = i + 1;
    }
    // every still-open frame is unmatched, in document order
    let ghost base_found = found@;
    let ghost base_stack = stack@;
    proof {
        assert(sp_preproc(ts) == base_found + base_stack.map_values(
            |fr: (Span, bool)| PreprocLint::UnmatchedDirective(fr.0),
        ));
    }
    let mut k: usize = 0;
    while k < stack.len()
        invariant
            k <= stack@.len(),
            stack@ == base_stack,
            found@ == base_found + base_stack.take(k as int).map_values(
                |fr: (Span, bool)| PreprocLint::UnmatchedDirective(fr.0),
            ),
        decreases stack@.len() - k,
    {
        proof {
            assert(base_stack.take(k + 1) =~= base_stack.take(k as int).push(
                base_stack[k as int],
            ));
            assert(base_found + base_stack.take(k + 1).map_values(
                |fr: (Span, bool)| PreprocLint::UnmatchedDirective(fr.0),
            ) =~= found@.push(PreprocLint::UnmatchedDirective(base_stack[k as int].0)));
        }
        found.push(PreprocLint::UnmatchedDirective(stack[k].0));
        k = k + 1;
    }
    proof {
        assert(base_stack.take(base_stack.len() as int) =~= base_stack);
        assert(found@ == sp_preproc(ts));
    }
    // convert the findings
    let mut j: usize = 0;
    while j < found.len()
        invariant
            j <= found@.len(),
            diags_view(lints@) == diags_view(old(lints)@) + found@.take(j as int).map_values(
                |l: PreprocLint| preproc_diag_v(l),
            ),
        decreases found@.len() - j,
    {
        let l = found[j];
        let d = l.to_diagnostic();
        proof {
            lemma_diags_view_push(lints@, d);
            assert(found@.take(j + 1) =~= found@.take(j as int).push(l));
            assert(found@.take(j + 1).map_values(|x: PreprocLint| preproc_diag_v(x)) =~= found@.take(
                j as int,
            ).map_values(|x: PreprocLint| preproc_diag_v(x)).push(d@));
        }
        lints.push(d);
        j = j + 1;
    }
}

/// The preprocessor-balance pass over a raw token stream.
pub fn lint_preproc(tokens: &[Token]) -> (r: Vec<Diagnostic>)
    ensures
        diags_view(r@) == sp_preproc_diags(tokens_view(tokens@)),
{
    let mut lints: Vec<Diagnostic> = Vec::new();
    proof {
        assert(diags_view(lints@) =~= Seq::<DiagnosticV>::empty());
    }
    lint_preproc_into(&mut lints, tokens);
    lints
}

// ---------------------------------------------------------------------------
// The processing entry point
// ---------------------------------------------------------------------------

/// The full ordered diagnostic list of one source text: parser findings
/// (with the fatal error, if any, already appended), then arity findings
/// if parsing fully succeeded, then preprocessor-balance findings computed
/// from tokens regardless of parse outcome, then fallthrough warnings if
/// parsing succeeded.
pub open spec fn sp_lint_source(d: Seq<u8>, f: FunctionV) -> Seq<DiagnosticV> {
    let ts = spec_lex(d);
    let p = sp_parse(ts);
    let parser_diags = p.diags.map_values(|l: crate::parser::ParseLint| parse_lint_diag_v(l));
    let arity = if p.ok {
        sp_lint_nodes(p.nodes, f)
    } else {
        Seq::empty()
    };
    let pre = sp_preproc_diags(ts);
    let ft = if p.ok {
        sp_switch_nodes(p.nodes)
    } else {
        Seq::empty()
    };
    parser_diags + arity + pre + ft
}

/// Lex, parse and lint one source text against a signature trie, and
/// return the full ordered diagnostic list.
pub fn lint_source(data: &[u8], funcs: &Function) -> (r: Vec<Diagnostic>)
    ensures
        diags_view(r@) == sp_lint_source(data@, func_view(*funcs)),
{
    let ghost d = data@;
    let n_bytes = data.len();
    let tokens = crate::lexer::lex(data);
    proof {
        crate::lexer::lemma_lex_wf(d);
    }
    let ghost ts = spec_lex(d);
    let (res, plints) = crate::parser::parse(tokens.as_slice());
    let ghost p = sp_parse(ts);
    let mut out: Vec<Diagnostic> = Vec::new();
    proof {
        assert(diags_view(out@) =~= Seq::<DiagnosticV>::empty());
    }
    let mut k: usize = 0;
    while k < plints.len()
        invariant
            k <= plints@.len(),
            diags_view(out@) == plints@.take(k as int).map_values(
                |l: crate::parser::ParseLint| parse_lint_diag_v(l),
            ),
        decreases plints@.len() - k,
    {
        let l = plints[k];
        let dg = l.to_diagnostic();
        proof {
            lemma_diags_view_push(out@, dg);
            assert(plints@.take(k + 1) =~= plints@.take(k as int).push(l));
            assert(plints@.take(k + 1).map_values(
                |x: crate::parser::ParseLint| parse_lint_diag_v(x),
            ) =~= plints@.take(k as int).map_values(
                |x: crate::parser::ParseLint| parse_lint_diag_v(x),
            ).push(dg@));
        }
        out.push(dg);
        k = k + 1;
    }
    proof {
        assert(plints@.take(plints@.len() as int) =~= plints@);
    }
    let ghost parser_diags = p.diags.map_values(
        |l: crate::parser::ParseLint| parse_lint_diag_v(l),
    );
    match res {
        Ok(ast) => {
            lint_node(&mut out, &ast, funcs);
            lint_preproc_into(&mut out, tokens.as_slice());
            lint_switch_walk(&mut out, &ast);
            proof {
                let f = func_view(*funcs);
                assert(diags_view(out@) =~= parser_diags + sp_lint_nodes(p.nodes, f)
                    + sp_preproc_diags(ts) + sp_switch_nodes(p.nodes));
            }
            out
        },
        Err(_) => {
            lint_preproc_into(&mut out, tokens.as_slice());
            proof {
                let f = func_view(*funcs);
                assert(diags_view(out@) =~= parser_diags + Seq::<DiagnosticV>::empty()
                    + sp_preproc_diags(ts) + Seq::<DiagnosticV>::empty());
            }
            out
        },
    }
}

} // verus!
