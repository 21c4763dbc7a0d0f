//! The common diagnostic model: the data shape every check emits into,
//! carrying a severity, a message, and role-tagged byte-span labels, enough
//! for an external renderer to show it against the source text.
use crate::lexer::Span;
use crate::parser::ParseLint;
use vstd::prelude::*;

verus! {

#[derive(Clone, Copy, Debug, PartialEq, Eq, Structural)]
pub enum Severity {
    Error,
    Warning,
}

#[derive(Clone, Copy, Debug, PartialEq, Eq, Structural)]
pub enum LabelStyle {
    Primary,
    Secondary,
}

/// A role-tagged byte range with its own message.
#[derive(Debug)]
pub struct Label {
    pub style: LabelStyle,
    pub span: Span,
    pub message: Vec<u8>,
}

/// One finding, immutable once created: rendering data only.
#[derive(Debug)]
pub struct Diagnostic {
    pub severity: Severity,
    pub message: Vec<u8>,
    pub labels: Vec<Label>,
}

pub ghost struct LabelV {
    pub style: LabelStyle,
    pub span: Span,
    pub message: Seq<u8>,
}

pub ghost struct DiagnosticV {
    pub severity: Severity,
    pub message: Seq<u8>,
    pub labels: Seq<LabelV>,
}

impl View for Label {
    type V = LabelV;

    open spec fn view(&self) -> LabelV {
        LabelV { style: self.style, span: self.span, message: self.message@ }
    }
}

impl View for Diagnostic {
    type V = DiagnosticV;

    open spec fn view(&self) -> DiagnosticV {
        DiagnosticV {
            severity: self.severity,
            message: self.message@,
            labels: self.labels@.map_values(|l: Label| l@),
        }
    }
}

/// The diagnostic views of a diagnostic sequence.
pub open spec fn diags_view(s: Seq<Diagnostic>) -> Seq<DiagnosticV> {
    s.map_values(|d: Diagnostic| d@)
}

pub proof fn lemma_diags_view_push(s: Seq<Diagnostic>, d: Diagnostic)
    ensures
        diags_view(s.push(d)) == diags_view(s).push(d@),
{
    assert(diags_view(s.push(d)) =~= diags_view(s).push(d@));
}

/// The bytes of "unmatched delimiter".
pub open spec fn m_unmatched_delimiter() -> Seq<u8> {
    seq![117u8, 110u8, 109u8, 97u8, 116u8, 99u8, 104u8, 101u8, 100u8, 32u8, 100u8, 101u8, 108u8, 105u8, 109u8, 105u8, 116u8, 101u8, 114u8]
}

/// The bytes of "unexpected token".
pub open spec fn m_unexpected_token() -> Seq<u8> {
    seq![117u8, 110u8, 101u8, 120u8, 112u8, 101u8, 99u8, 116u8, 101u8, 100u8, 32u8, 116u8, 111u8, 107u8, 101u8, 110u8]
}

/// The bytes of "calling `".
pub open spec fn m_calling_prefix() -> Seq<u8> {
    seq![99u8, 97u8, 108u8, 108u8, 105u8, 110u8, 103u8, 32u8, 96u8]
}

/// The bytes of "` with too many arguments".
pub open spec fn m_too_many_suffix() -> Seq<u8> {
    seq![96u8, 32u8, 119u8, 105u8, 116u8, 104u8, 32u8, 116u8, 111u8, 111u8, 32u8, 109u8, 97u8, 110u8, 121u8, 32u8, 97u8, 114u8, 103u8, 117u8, 109u8, 101u8, 110u8, 116u8, 115u8]
}

/// The bytes of "` with too few arguments".
pub open spec fn m_too_few_suffix() -> Seq<u8> {
    seq![96u8, 32u8, 119u8, 105u8, 116u8, 104u8, 32u8, 116u8, 111u8, 111u8, 32u8, 102u8, 101u8, 119u8, 32u8, 97u8, 114u8, 103u8, 117u8, 109u8, 101u8, 110u8, 116u8, 115u8]
}

/// The bytes of "too many arguments".
pub open spec fn m_too_many_label() -> Seq<u8> {
    seq![116u8, 111u8, 111u8, 32u8, 109u8, 97u8, 110u8, 121u8, 32u8, 97u8, 114u8, 103u8, 117u8, 109u8, 101u8, 110u8, 116u8, 115u8]
}

/// The bytes of "not enough arguments".
pub open spec fn m_not_enough_label() -> Seq<u8> {
    seq![110u8, 111u8, 116u8, 32u8, 101u8, 110u8, 111u8, 117u8, 103u8, 104u8, 32u8, 97u8, 114u8, 103u8, 117u8, 109u8, 101u8, 110u8, 116u8, 115u8]
}

/// The bytes of "missing fallthrough for switch".
pub open spec fn m_missing_fallthrough() -> Seq<u8> {
    seq![109u8, 105u8, 115u8, 115u8, 105u8, 110u8, 103u8, 32u8, 102u8, 97u8, 108u8, 108u8, 116u8, 104u8, 114u8, 111u8, 117u8, 103u8, 104u8, 32u8, 102u8, 111u8, 114u8, 32u8, 115u8, 119u8, 105u8, 116u8, 99u8, 104u8]
}

/// The bytes of "consider adding a fallthrough node here".
pub open spec fn m_consider_fallthrough() -> Seq<u8> {
    seq![99u8, 111u8, 110u8, 115u8, 105u8, 100u8, 101u8, 114u8, 32u8, 97u8, 100u8, 100u8, 105u8, 110u8, 103u8, 32u8, 97u8, 32u8, 102u8, 97u8, 108u8, 108u8, 116u8, 104u8, 114u8, 111u8, 117u8, 103u8, 104u8, 32u8, 110u8, 111u8, 100u8, 101u8, 32u8, 104u8, 101u8, 114u8, 101u8]
}

/// The bytes of "extraneous directive".
pub open spec fn m_extraneous_directive() -> Seq<u8> {
    seq![101u8, 120u8, 116u8, 114u8, 97u8, 110u8, 101u8, 111u8, 117u8, 115u8, 32u8, 100u8, 105u8, 114u8, 101u8, 99u8, 116u8, 105u8, 118u8, 101u8]
}

/// The bytes of "unmatched directive".
pub open spec fn m_unmatched_directive() -> Seq<u8> {
    seq![117u8, 110u8, 109u8, 97u8, 116u8, 99u8, 104u8, 101u8, 100u8, 32u8, 100u8, 105u8, 114u8, 101u8, 99u8, 116u8, 105u8, 118u8, 101u8]
}

/// The message "unmatched delimiter".
pub(crate) fn msg_unmatched_delimiter() -> (r: Vec<u8>)
    ensures
        r@ == m_unmatched_delimiter(),
{
    let a: [u8; 19] = [117, 110, 109, 97, 116, 99, 104, 101, 100, 32, 100, 101, 108, 105, 109, 105, 116, 101, 114];
    let v = vstd::slice::slice_to_vec(vstd::array::array_as_slice(&a));
    proof {
        assert(a@ =~= m_unmatched_delimiter());
    }
    v
}

/// The message "unexpected token".
pub(crate) fn msg_unexpected_token() -> (r: Vec<u8>)
    ensures
        r@ == m_unexpected_token(),
{
    let a: [u8; 16] = [117, 110, 101, 120, 112, 101, 99, 116, 101, 100, 32, 116, 111, 107, 101, 110];
    let v = vstd::slice::slice_to_vec(vstd::array::array_as_slice(&a));
    proof {
        assert(a@ =~= m_unexpected_token());
    }
    v
}

/// The message "calling `".
pub(crate) fn msg_calling_prefix() -> (r: Vec<u8>)
    ensures
        r@ == m_calling_prefix(),
{
    let a: [u8; 9] = [99, 97, 108, 108, 105, 110, 103, 32, 96];
    let v = vstd::slice::slice_to_vec(vstd::array::array_as_slice(&a));
    proof {
        assert(a@ =~= m_calling_prefix());
    }
    v
}

/// The message "` with too many arguments".
pub(crate) fn msg_too_many_suffix() -> (r: Vec<u8>)
    ensures
        r@ == m_too_many_suffix(),
{
    let a: [u8; 25] = [96, 32, 119, 105, 116, 104, 32, 116, 111, 111, 32, 109, 97, 110, 121, 32, 97, 114, 103, 117, 109, 101, 110, 116, 115];
    let v = vstd::slice::slice_to_vec(vstd::array::array_as_slice(&a));
    proof {
        assert(a@ =~= m_too_many_suffix());
    }
    v
}

/// The message "` with too few arguments".
pub(crate) fn msg_too_few_suffix() -> (r: Vec<u8>)
    ensures
        r@ == m_too_few_suffix(),
{
    let a: [u8; 24] = [96, 32, 119, 105, 116, 104, 32, 116, 111, 111, 32, 102, 101, 119, 32, 97, 114, 103, 117, 109, 101, 110, 116, 115];
    let v = vstd::slice::slice_to_vec(vstd::array::array_as_slice(&a));
    proof {
        assert(a@ =~= m_too_few_suffix());
    }
    v
}

/// The message "too many arguments".
pub(crate) fn msg_too_many_label() -> (r: Vec<u8>)
    ensures
        r@ == m_too_many_label(),
{
    let a: [u8; 18] = [116, 111, 111, 32, 109, 97, 110, 121, 32, 97, 114, 103, 117, 109, 101, 110, 116, 115];
    let v = vstd::slice::slice_to_vec(vstd::array::array_as_slice(&a));
    proof {
        assert(a@ =~= m_too_many_label());
    }
    v
}

/// The message "not enough arguments".
pub(crate) fn msg_not_enough_label() -> (r: Vec<u8>)
    ensures
        r@ == m_not_enough_label(),
{
    let a: [u8; 20] = [110, 111, 116, 32, 101, 110, 111, 117, 103, 104, 32, 97, 114, 103, 117, 109, 101, 110, 116, 115];
    let v = vstd::slice::slice_to_vec(vstd::array::array_as_slice(&a));
    proof {
        assert(a@ =~= m_not_enough_label());
    }
    v
}

/// The message "missing fallthrough for switch".
pub(crate) fn msg_missing_fallthrough() -> (r: Vec<u8>)
    ensures
        r@ == m_missing_fallthrough(),
{
    let a: [u8; 30] = [109, 105, 115, 115, 105, 110, 103, 32, 102, 97, 108, 108, 116, 104, 114, 111, 117, 103, 104, 32, 102, 111, 114, 32, 115, 119, 105, 116, 99, 104];
    let v = vstd::slice::slice_to_vec(vstd::array::array_as_slice(&a));
    proof {
        assert(a@ =~= m_missing_fallthrough());
    }
    v
}

/// The message "consider adding a fallthrough node here".
pub(crate) fn msg_consider_fallthrough() -> (r: Vec<u8>)
    ensures
        r@ == m_consider_fallthrough(),
{
    let a: [u8; 39] = [99, 111, 110, 115, 105, 100, 101, 114, 32, 97, 100, 100, 105, 110, 103, 32, 97, 32, 102, 97, 108, 108, 116, 104, 114, 111, 117, 103, 104, 32, 110, 111, 100, 101, 32, 104, 101, 114, 101];
    let v = vstd::slice::slice_to_vec(vstd::array::array_as_slice(&a));
    proof {
        assert(a@ =~= m_consider_fallthrough());
    }
    v
}

/// The message "extraneous directive".
pub(crate) fn msg_extraneous_directive() -> (r: Vec<u8>)
    ensures
        r@ == m_extraneous_directive(),
{
    let a: [u8; 20] = [101, 120, 116, 114, 97, 110, 101, 111, 117, 115, 32, 100, 105, 114, 101, 99, 116, 105, 118, 101];
    let v = vstd::slice::slice_to_vec(vstd::array::array_as_slice(&a));
    proof {
        assert(a@ =~= m_extraneous_directive());
    }
    v
}

/// The message "unmatched directive".
pub(crate) fn msg_unmatched_directive() -> (r: Vec<u8>)
    ensures
        r@ == m_unmatched_directive(),
{
    let a: [u8; 19] = [117, 110, 109, 97, 116, 99, 104, 101, 100, 32, 100, 105, 114, 101, 99, 116, 105, 118, 101];
    let v = vstd::slice::slice_to_vec(vstd::array::array_as_slice(&a));
    proof {
        assert(a@ =~= m_unmatched_directive());
    }
    v
}

/// The diagnostic of a parser finding: an unmatched-delimiter pairing of
/// the opener and the unexpected token, or a fatal unexpected token.
pub open spec fn parse_lint_diag_v(l: ParseLint) -> DiagnosticV {
    match l {
        ParseLint::UnmatchedBrace(opening, closing) => DiagnosticV {
            severity: Severity::Error,
            message: m_unmatched_delimiter(),
            labels: seq![
                LabelV {
                    style: LabelStyle::Primary,
                    span: opening,
                    message: m_unmatched_delimiter(),
                },
                LabelV { style: LabelStyle::Secondary, span: closing, message: m_unexpected_token() },
            ],
        },
        ParseLint::GenericError(span) => DiagnosticV {
            severity: Severity::Error,
            message: m_unexpected_token(),
            labels: seq![
                LabelV { style: LabelStyle::Primary, span, message: m_unexpected_token() },
            ],
        },
    }
}

impl ParseLint {
    /// Render this parser finding as a diagnostic.
    pub fn to_diagnostic(&self) -> (r: Diagnostic)
        ensures
            r@ == parse_lint_diag_v(*self),
    {
        match self {
            ParseLint::UnmatchedBrace(opening, closing) => {
                let mut labels: Vec<Label> = Vec::new();
                labels.push(
                    Label {
                        style: LabelStyle::Primary,
                        span: *opening,
                        message: msg_unmatched_delimiter(),
                    },
                );
                labels.push(
                    Label {
                        style: LabelStyle::Secondary,
                        span: *closing,
                        message: msg_unexpected_token(),
                    },
                );
                let r = Diagnostic {
                    severity: Severity::Error,
                    message: msg_unmatched_delimiter(),
                    labels,
                };
                proof {
                    assert(r@.labels =~= parse_lint_diag_v(*self).labels);
                }
                r
            },
            ParseLint::GenericError(span) => {
                let mut labels: Vec<Label> = Vec::new();
                labels.push(
                    Label { style: LabelStyle::Primary, span: *span, message: msg_unexpected_token() },
                );
                let r = Diagnostic {
                    severity: Severity::Error,
                    message: msg_unexpected_token(),
                    labels,
                };
                proof {
                    assert(r@.labels =~= parse_lint_diag_v(*self).labels);
                }
                r
            },
        }
    }
}

} // verus!
