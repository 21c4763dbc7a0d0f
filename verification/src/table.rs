//! The function-signature table: a line-oriented text format describing
//! argument-count bounds per command path.  Lines starting with `#` are
//! comments; lines with fewer than three whitespace-separated fields are
//! skipped; otherwise the last two fields are the unsigned bounds (minimum
//! then maximum, in that order) and the preceding fields are the command
//! path.  A non-numeric bound is a fatal configuration error.
use crate::lexer::all_digits;
use crate::lexer::digits_val;
use crate::lexer::is_digit_byte;
use crate::lexer::is_ws_byte;
use crate::linter::Function;
use crate::linter::FunctionV;
use crate::linter::default_func_v;
use crate::linter::func_view;
use crate::linter::path_view;
use crate::linter::sp_insert;
use vstd::prelude::*;

verus! {

/// Length of the maximal run of non-newline bytes starting at `i`.
pub open spec fn line_len(d: Seq<u8>, i: int) -> nat {
    crate::lexer::comment_len(d, i)
}

/// Length of the maximal run of non-whitespace bytes starting at `i`.
pub open spec fn field_len(d: Seq<u8>, i: int) -> nat
    decreases d.len() - i,
{
    if 0 <= i < d.len() && !is_ws_byte(d[i]) {
        1 + field_len(d, i + 1)
    } else {
        0
    }
}

pub proof fn lemma_field_len(d: Seq<u8>, i: int)
    requires
        0 <= i <= d.len(),
    ensures
        i + field_len(d, i) <= d.len(),
        forall|k: int| i <= k < i + field_len(d, i) ==> !is_ws_byte(d[k]),
        i + field_len(d, i) < d.len() ==> is_ws_byte(d[i + field_len(d, i)]),
        i < d.len() && !is_ws_byte(d[i]) ==> field_len(d, i) >= 1,
    decreases d.len() - i,
{
    if i < d.len() && !is_ws_byte(d[i]) {
        lemma_field_len(d, i + 1);
    }
}

proof fn lemma_field_scan(d: Seq<u8>, i: int, j: int)
    requires
        0 <= i <= j <= d.len(),
        forall|k: int| i <= k < j ==> !is_ws_byte(d[k]),
        j < d.len() ==> is_ws_byte(d[j]),
    ensures
        field_len(d, i) == j - i,
    decreases j - i,
{
    if i < j {
        lemma_field_scan(d, i + 1, j);
    }
}

/// The whitespace-separated fields of `line` from position `i` on.
pub open spec fn sp_fields_at(line: Seq<u8>, i: int) -> Seq<Seq<u8>>
    decreases line.len() - i,
    via sp_fields_at_dec
{
    if !(0 <= i < line.len()) {
        Seq::empty()
    } else if is_ws_byte(line[i]) {
        sp_fields_at(line, i + 1)
    } else {
        let l = field_len(line, i) as int;
        seq![line.subrange(i, i + l)] + sp_fields_at(line, i + l)
    }
}

#[via_fn]
proof fn sp_fields_at_dec(line: Seq<u8>, i: int) {
    if 0 <= i < line.len() {
        lemma_field_len(line, i);
    }
}

/// The whitespace-separated fields of a line.
pub open spec fn sp_fields(line: Seq<u8>) -> Seq<Seq<u8>> {
    sp_fields_at(line, 0)
}

/// The unsigned value of a bound field: an optional leading `+`, then at
/// least one decimal digit, fitting the machine word.
pub open spec fn sp_usize_of(s: Seq<u8>) -> Option<usize> {
    let t = if s.len() > 0 && s[0] == 43 {
        s.subrange(1, s.len() as int)
    } else {
        s
    };
    if t.len() >= 1 && all_digits(t) && digits_val(t) <= usize::MAX {
        Some(digits_val(t) as usize)
    } else {
        None
    }
}

/// The trie after applying one line: comments and short lines leave it
/// unchanged; otherwise the last two fields are the bounds (minimum then
/// maximum) and the preceding fields are the inserted path.  A bound that
/// is not an unsigned number is the fatal configuration error.
pub open spec fn sp_line_apply(f: FunctionV, line: Seq<u8>) -> Option<FunctionV> {
    if line.len() > 0 && line[0] == 35 {
        Some(f)
    } else {
        let fs = sp_fields(line);
        if fs.len() < 3 {
            Some(f)
        } else {
            let mx = sp_usize_of(fs.last());
            let mn = sp_usize_of(fs[fs.len() - 2]);
            if mx is Some && mn is Some {
                Some(
                    sp_insert(
                        f,
                        fs.take(fs.len() - 2),
                        0,
                        mn->Some_0,
                        mx->Some_0,
                    ),
                )
            } else {
                None
            }
        }
    }
}

/// The trie after applying every line of the table from position `i` on.
pub open spec fn sp_load_at(d: Seq<u8>, i: int, f: FunctionV) -> Option<FunctionV>
    decreases d.len() - i,
    via sp_load_at_dec
{
    if !(0 <= i < d.len()) {
        Some(f)
    } else {
        let j = i + line_len(d, i) as int;
        let line = d.subrange(i, j);
        match sp_line_apply(f, line) {
            Some(f2) => sp_load_at(d, if j < d.len() {
                j + 1
            } else {
                j
            }, f2),
            None => None,
        }
    }
}

#[via_fn]
proof fn sp_load_at_dec(d: Seq<u8>, i: int, f: FunctionV) {
    if 0 <= i < d.len() {
        crate::lexer::lemma_comment_len(d, i);
    }
}

/// The trie built from a whole signature table, or `None` on a malformed
/// bound.
pub open spec fn sp_load(d: Seq<u8>) -> Option<FunctionV> {
    sp_load_at(d, 0, default_func_v())
}

/// The unsigned value of a bound field.
fn parse_usize_field(field: &Vec<u8>) -> (r: Option<usize>)
    ensures
        r == sp_usize_of(field@),
{
    let ghost s = field@;
    let n = field.len();
    let off: usize = if n > 0 && field[0] == 43 {
        1
    } else {
        0
    };
    let ghost t = if s.len() > 0 && s[0] == 43 {
        s.subrange(1, s.len() as int)
    } else {
        s
    };
    proof {
        if off == 0 {
            assert(t =~= s.subrange(0, n as int));
            assert(s.subrange(0, n as int) =~= s);
        }
    }
    if off >= n {
        proof {
            assert(t.len() == 0);
        }
        return None;
    }
    let mut mag: u128 = 0;
    let mut over = false;
    let mut k: usize = off;
    while k < n
        invariant
            off <= k <= n,
            n == s.len(),
            field@ == s,
            off < n,
            off == 1 || off == 0,
            (off == 1) <==> (s.len() > 0 && s[0] == 43),
            t == s.subrange(off as int, n as int),
            forall|j: int| off <= j < k ==> is_digit_byte(s[j]),
            !over ==> mag == digits_val(s.subrange(off as int, k as int)) && mag <= usize::MAX,
            over ==> digits_val(s.subrange(off as int, k as int)) > usize::MAX,
        decreases n - k,
    {
        let c = field[k];
        if !(48 <= c && c <= 57) {
            proof {
                assert(t[k - off] == s[k as int]);
                assert(!is_digit_byte(t[k - off]));
                assert(0 <= k - off < t.len());
                assert(!all_digits(t));
                if off == 0 {
                    assert(s.subrange(0, n as int) =~= s);
                }
                assert(sp_usize_of(s) is None);
            }
            return None;
        }
        proof {
            assert(s.subrange(off as int, k + 1).drop_last() =~= s.subrange(
                off as int,
                k as int,
            ));
            assert(s.subrange(off as int, k + 1).last() == c);
            assert(digits_val(s.subrange(off as int, k + 1)) == digits_val(
                s.subrange(off as int, k as int),
            ) * 10 + (c - 48));
            if over {
                crate::lexer::lemma_digits_val_nonneg(s.subrange(off as int, k as int));
            }
        }
        if !over {
            let m2: u128 = mag * 10 + ((c - 48) as u128);
            if m2 > usize::MAX as u128 {
                over = true;
            } else {
                mag = m2;
            }
        }
        k = k + 1;
    }
    proof {
        assert(s.subrange(off as int, n as int) =~= t);
        assert(all_digits(t));
        assert(t.len() >= 1);
    }
    if over {
        None
    } else {
        Some(mag as usize)
    }
}

/// Build the signature trie from the table text, or `None` on a malformed
/// bound field.
pub fn load_funcs(data: &[u8]) -> (r: Option<Function>)
    ensures
        match r {
            Some(f) => sp_load(data@) == Some(func_view(f)),
            None => sp_load(data@) is None,
        },
{
    let ghost d = data@;
    let mut tree = Function::default();
    let mut i: usize = 0;
    while i < data.len()
        invariant
            i <= d.len(),
            d == data@,
            sp_load_at(d, i as int, func_view(tree)) == sp_load(d),
        decreases d.len() - i,
    {
        let ghost i0 = i as int;
        // find the end of the line
        let mut j: usize = i;
        while j < data.len() && data[j] != 10
            invariant
                i <= j <= d.len(),
                d == data@,
                forall|k: int| i <= k < j ==> d[k] != 10,
            decreases d.len() - j,
        {
            j = j + 1;
        }
        proof {
            crate::lexer::lemma_comment_scan(d, i0, j as int);
        }
        let ghost line = d.subrange(i0, j as int);
        if !(j > i && data[i] == 35) {
            // split the line into whitespace-separated fields
            let mut fields: Vec<Vec<u8>> = Vec::new();
            let mut k: usize = i;
            proof {
                assert(path_view(fields@) =~= Seq::<Seq<u8>>::empty());
                assert(path_view(fields@) + sp_fields_at(line, k - i0) =~= sp_fields(line));
            }
            while k < j
                invariant
                    i <= k <= j <= d.len(),
                    d == data@,
                    i0 == i as int,
                    line == d.subrange(i0, j as int),
                    forall|m: int| i <= m < j ==> d[m] != 10,
                    path_view(fields@) + sp_fields_at(line, k - i0) == sp_fields(line),
                decreases j - k,
            {
                let c = data[k];
                proof {
                    assert(line[k - i0] == d[k as int]);
                }
                if is_ws_exec(c) {
                    k = k + 1;
                    continue ;
                }
                // scan one field
                let fstart = k;
                let mut fend: usize = k;
                while fend < j && !is_ws_exec_at(data, fend)
                    invariant
                        k <= fend <= j <= d.len(),
                        d == data@,
                        forall|m: int| k <= m < fend ==> !is_ws_byte(d[m]),
                    decreases j - fend,
                {
                    fend = fend + 1;
                }
                proof {
                    assert forall|m: int| k - i0 <= m < fend - i0 implies !is_ws_byte(
                        line[m],
                    ) by {
                        assert(line[m] == d[m + i0]);
                    }
                    if fend < j {
                        assert(line[fend - i0] == d[fend as int]);
                    }
                    lemma_field_scan(line, k - i0, fend - i0);
                }
                let fld = crate::lexer::copy_range(data, fstart, fend);
                proof {
                    assert(fld@ =~= line.subrange(k - i0, fend - i0));
                    assert(path_view(fields@.push(fld)) =~= path_view(fields@).push(fld@));
                    assert(path_view(fields@).push(fld@) + sp_fields_at(line, fend - i0)
                        =~= path_view(fields@) + sp_fields_at(line, k - i0));
                }
                fields.push(fld);
                k = fend;
            }
            proof {
                assert(path_view(fields@) =~= sp_fields(line));
            }
            if fields.len() >= 3 {
                let nf = fields.len();
                let mx = parse_usize_field(&fields[nf - 1]);
                let mn = parse_usize_field(&fields[nf - 2]);
                proof {
                    assert(path_view(fields@)[nf - 1] == fields@[nf - 1]@);
                    assert(path_view(fields@)[nf - 2] == fields@[nf - 2]@);
                    assert(sp_fields(line).last() == fields@[nf - 1]@);
                }
                match (mn, mx) {
                    (Some(mn_v), Some(mx_v)) => {
                        let path = vstd::slice::slice_subrange(fields.as_slice(), 0, nf - 2);
                        proof {
                            assert(path_view(path@) =~= sp_fields(line).take(nf - 2));
                        }
                        tree.insert(path, mn_v, mx_v);
                    },
                    _ => {
                        return None;
                    },
                }
            }
        }
        if j < data.len() {
            i = j + 1;
        } else {
            i = j;
        }
    }
    Some(tree)
}

fn is_ws_exec(c: u8) -> (r: bool)
    ensures
        r == is_ws_byte(c),
{
    c == 32 || c == 9 || c == 10 || c == 13 || c == 12
}

fn is_ws_exec_at(data: &[u8], i: usize) -> (r: bool)
    requires
        i < data@.len(),
    ensures
        r == is_ws_byte(data@[i as int]),
{
    is_ws_exec(data[i])
}

} // verus!
