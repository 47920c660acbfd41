//! What holds of the engine as a whole.
//!
//! Each statement here is a law relating the public contracts: what the
//! parser, the matcher, the extraction passes and the expansion engine
//! together guarantee, proved once and for all inputs.

use vstd::prelude::*;
use crate::diag::{DiagKind, DiagM};
use crate::expand::{case_segment, inst_name, lemma_prod_from_pos, lemma_rank_unrank, lemma_unrank_in_range, matrix_tail, prod_from, rank_from, spec_instantiation, total_count, unrank_from, NamedBindM};
use crate::names::{all_digits, dec_str, is_digit, lemma_dec_str_digits, lemma_dec_str_val};
use crate::extend::{default_attrs_of, default_ret_diags, default_twice_msg, partial_diag, partial_diags_upto, partial_pos_of, partial_suffix_ok, partial_twice_msg, same_partial_before, type_outcome};
use crate::matcher::{bound_before, MatrixM, case_diag, case_diags_upto, case_set_diags, decl_diag, decl_diags, decl_diags_upto, duplicate_msg, missing_msg, param_named, wrong_case_diag, CaseM, DeclM};
use crate::model::InfoM;
use crate::parser::{close_angle, expr_end, pathsep_at, spec_parse, spec_parse_attr, spec_parse_attrs, spec_parse_item, spec_parse_items, ParseOut, POut};
use crate::sig::{FnAttrM, ParamM};
use crate::token::Token;

verus! {

/// Round trip of the minimal annotation: no tokens parse to the model
/// with no items and no modifiers.
pub proof fn law_empty_annotation_round_trip()
    ensures
        spec_parse(Seq::<Token>::empty()) == (ParseOut::Parsed { info: InfoM::empty() }),
{
}

// ------------------------------------------------------------- the matcher

/// When every declaration up to `n` except `j` earns no report, the
/// matching report up to `n` is exactly declaration `j`'s.
proof fn lemma_decl_fold_single(params: Seq<ParamM>, decls: Seq<DeclM>, j: int, n: int)
    requires
        0 <= n <= decls.len(),
        0 <= j,
        forall|k: int|
            0 <= k < n && k != j ==> (#[trigger] decl_diag(params, decls, k)).len() == 0,
    ensures
        decl_diags_upto(params, decls, n) == (if j < n {
            decl_diag(params, decls, j)
        } else {
            Seq::<DiagM>::empty()
        }),
    decreases n,
{
    if n > 0 {
        lemma_decl_fold_single(params, decls, j, n - 1);
        if n - 1 == j {
            assert(decl_diags_upto(params, decls, n) =~= decl_diag(params, decls, j));
        } else {
            assert(decl_diags_upto(params, decls, n) =~= decl_diags_upto(params, decls, n - 1));
        }
    }
}

/// Binding the same parameter name twice — whatever the two categories —
/// earns exactly one duplicate-argument diagnostic, at the second
/// occurrence.
pub proof fn law_duplicate_binding_reported_once(
    params: Seq<ParamM>,
    decls: Seq<DeclM>,
    i: int,
    j: int,
)
    requires
        0 <= i < j < decls.len(),
        decls[i].name.text == decls[j].name.text,
        forall|k: int|
            0 <= k < decls.len() ==> param_named(params, (#[trigger] decls[k]).name.text),
        forall|a: int, b: int|
            0 <= a < b < decls.len() && !(a == i && b == j) ==> (#[trigger] decls[a].name.text)
                != (#[trigger] decls[b].name.text),
    ensures
        decl_diags(params, decls) == seq![
            DiagM {
                kind: DiagKind::DuplicateArgument,
                message: duplicate_msg(decls[j].name.text),
                span: decls[j].span,
            },
        ],
{
    assert forall|k: int| 0 <= k < decls.len() && k != j implies (#[trigger] decl_diag(
        params,
        decls,
        k,
    )).len() == 0 by {
        if bound_before(decls, k) {
            let a = choose|a: int| 0 <= a < k && decls[a].name.text == decls[k].name.text;
            assert(!(a == i && k == j));
            assert(decls[a].name.text != decls[k].name.text);
        }
    }
    assert(bound_before(decls, j));
    assert(decl_diag(params, decls, j) == seq![
        DiagM {
            kind: DiagKind::DuplicateArgument,
            message: duplicate_msg(decls[j].name.text),
            span: decls[j].span,
        },
    ]);
    lemma_decl_fold_single(params, decls, j, decls.len() as int);
}

/// A declaration whose name no bindable parameter carries earns exactly
/// one missing-argument diagnostic, naming it, however many valid
/// declarations stand beside it.
pub proof fn law_missing_argument_reported_once(params: Seq<ParamM>, decls: Seq<DeclM>, i: int)
    requires
        0 <= i < decls.len(),
        !param_named(params, decls[i].name.text),
        forall|k: int|
            0 <= k < decls.len() && k != i ==> param_named(
                params,
                (#[trigger] decls[k]).name.text,
            ),
        forall|a: int, b: int|
            0 <= a < b < decls.len() ==> (#[trigger] decls[a].name.text) != (
            #[trigger] decls[b].name.text),
    ensures
        decl_diags(params, decls) == seq![
            DiagM {
                kind: DiagKind::MissingArgument,
                message: missing_msg(decls[i].name.text),
                span: decls[i].span,
            },
        ],
{
    assert forall|k: int| 0 <= k < decls.len() && k != i implies (#[trigger] decl_diag(
        params,
        decls,
        k,
    )).len() == 0 by {
        if bound_before(decls, k) {
            let a = choose|a: int| 0 <= a < k && decls[a].name.text == decls[k].name.text;
            assert(decls[a].name.text != decls[k].name.text);
        }
    }
    assert(decl_diag(params, decls, i) == seq![
        DiagM {
            kind: DiagKind::MissingArgument,
            message: missing_msg(decls[i].name.text),
            span: decls[i].span,
        },
    ]);
    lemma_decl_fold_single(params, decls, i, decls.len() as int);
}

/// Like `lemma_decl_fold_single`, for the case-arity fold.
proof fn lemma_case_fold_single(nparams: int, cs: Seq<CaseM>, j: int, n: int)
    requires
        0 <= n <= cs.len(),
        0 <= j,
        forall|k: int| 0 <= k < n && k != j ==> (#[trigger] case_diag(nparams, cs, k)).len() == 0,
    ensures
        case_diags_upto(nparams, cs, n) == (if j < n {
            case_diag(nparams, cs, j)
        } else {
            Seq::<DiagM>::empty()
        }),
    decreases n,
{
    if n > 0 {
        lemma_case_fold_single(nparams, cs, j, n - 1);
        if n - 1 == j {
            assert(case_diags_upto(nparams, cs, n) =~= case_diag(nparams, cs, j));
        } else {
            assert(case_diags_upto(nparams, cs, n) =~= case_diags_upto(nparams, cs, n - 1));
        }
    }
}

/// One case tuple of the wrong arity earns exactly one diagnostic, at
/// that tuple; the other tuples in the set are untouched.
pub proof fn law_wrong_case_tuple_reported_once(cps: Seq<crate::model::IdentM>, cs: Seq<CaseM>, c: int)
    requires
        cps.len() > 0,
        0 <= c < cs.len(),
        cs[c].args.len() != cps.len(),
        forall|k: int| 0 <= k < cs.len() && k != c ==> (#[trigger] cs[k]).args.len() == cps.len(),
    ensures
        case_set_diags(cps, cs) == seq![wrong_case_diag(cs[c])],
{
    assert forall|k: int| 0 <= k < cs.len() && k != c implies (#[trigger] case_diag(
        cps.len() as int,
        cs,
        k,
    )).len() == 0 by {}
    assert(case_diag(cps.len() as int, cs, c) == seq![wrong_case_diag(cs[c])]);
    lemma_case_fold_single(cps.len() as int, cs, c, cs.len() as int);
}

// ----------------------------------------------------- the fixture resolver

/// Declaring the full-specialization return type twice on one signature
/// earns exactly one repeated-declaration diagnostic.
pub proof fn law_repeated_default_reported_once(attrs: Seq<FnAttrM>)
    requires
        default_attrs_of(attrs).len() == 2,
    ensures
        default_ret_diags(attrs) == seq![
            DiagM {
                kind: DiagKind::RepeatedDefaultOrPartial,
                message: default_twice_msg(),
                span: default_attrs_of(attrs)[1].span,
            },
        ],
{
}

/// Declaring the same `partial_N` position twice on one signature earns
/// exactly one repeated-declaration diagnostic, at the second.
pub proof fn law_repeated_partial_reported_once(ps: Seq<FnAttrM>, gc: int)
    requires
        ps.len() == 2,
        ps[0].name.text == ps[1].name.text,
        partial_suffix_ok(ps[0]),
        partial_pos_of(ps[0]) <= gc,
        type_outcome(ps[0]) is Some,
    ensures
        partial_diags_upto(ps, gc, 2) == seq![
            DiagM {
                kind: DiagKind::RepeatedDefaultOrPartial,
                message: partial_twice_msg(),
                span: ps[1].span,
            },
        ],
{
    assert(!same_partial_before(ps, 0));
    assert(partial_diag(ps, gc, 0).len() == 0);
    assert(partial_suffix_ok(ps[1]));
    assert(partial_pos_of(ps[1]) == partial_pos_of(ps[0]));
    assert(same_partial_before(ps, 1));
    assert(partial_diag(ps, gc, 1) == seq![
        DiagM {
            kind: DiagKind::RepeatedDefaultOrPartial,
            message: partial_twice_msg(),
            span: ps[1].span,
        },
    ]);
    assert(partial_diags_upto(ps, gc, 0) =~= Seq::<DiagM>::empty());
    assert(partial_diags_upto(ps, gc, 1) =~= partial_diag(ps, gc, 0));
    assert(partial_diags_upto(ps, gc, 2) =~= partial_diag(ps, gc, 0) + partial_diag(ps, gc, 1));
    assert(partial_diags_upto(ps, gc, 2) =~= seq![
        DiagM {
            kind: DiagKind::RepeatedDefaultOrPartial,
            message: partial_twice_msg(),
            span: ps[1].span,
        },
    ]);
}


// ----------------------------------------------------- the expansion engine

proof fn lemma_cancel_left(a: Seq<char>, x: Seq<char>, y: Seq<char>)
    requires
        a + x == a + y,
    ensures
        x == y,
{
    assert((a + x).len() == (a + y).len());
    assert((a + x).len() == a.len() + x.len());
    assert((a + y).len() == a.len() + y.len());
    assert(x.len() == y.len());
    assert forall|i: int| 0 <= i < x.len() implies x[i] == y[i] by {
        assert((a + x)[a.len() + i] == x[i]);
        assert((a + y)[a.len() + i] == y[i]);
    }
    assert(x =~= y);
}

/// A nonempty digit string followed by something that does not start
/// with a digit is read back unambiguously.
proof fn lemma_digits_boundary(d1: Seq<char>, r1: Seq<char>, d2: Seq<char>, r2: Seq<char>)
    requires
        d1.len() >= 1,
        d2.len() >= 1,
        all_digits(d1),
        all_digits(d2),
        r1.len() == 0 || !is_digit(r1[0]),
        r2.len() == 0 || !is_digit(r2[0]),
        d1 + r1 == d2 + r2,
    ensures
        d1 == d2,
        r1 == r2,
{
    let s = d1 + r1;
    if d1.len() < d2.len() {
        let p = d1.len() as int;
        assert(s.len() == d2.len() + r2.len());
        assert(r1.len() > 0);
        assert(s[p] == r1[0]);
        assert((d2 + r2)[p] == d2[p]);
        assert(is_digit(d2[p]));
        assert(false);
    }
    if d2.len() < d1.len() {
        let p = d2.len() as int;
        assert(r2.len() > 0);
        assert((d2 + r2)[p] == r2[0]);
        assert(s[p] == d1[p]);
        assert(is_digit(d1[p]));
        assert(false);
    }
    assert forall|i: int| 0 <= i < d1.len() implies d1[i] == d2[i] by {
        assert(s[i] == d1[i]);
        assert((d2 + r2)[i] == d2[i]);
    }
    assert(d1 =~= d2);
    lemma_cancel_left(d1, r1, r2);
}

/// A matrix tail is empty or opens with its separator.
proof fn lemma_tail_shape(ms: Seq<MatrixM>, idxs: Seq<int>, d: int)
    ensures
        matrix_tail(ms, idxs, d).len() == 0 || matrix_tail(ms, idxs, d)[0] == ':',
{
    reveal_strlit("::");
    if 0 <= d < ms.len() {
        assert(matrix_tail(ms, idxs, d)[0] == "::"@[0]);
    }
}

/// Equal matrix tails carry equal indices.
proof fn lemma_tail_inj(ms: Seq<MatrixM>, idxs1: Seq<int>, idxs2: Seq<int>, d: int)
    requires
        0 <= d <= ms.len(),
        forall|j: int| d <= j < ms.len() ==> 0 <= #[trigger] idxs1[j],
        forall|j: int| d <= j < ms.len() ==> 0 <= #[trigger] idxs2[j],
        matrix_tail(ms, idxs1, d) == matrix_tail(ms, idxs2, d),
    ensures
        forall|j: int| d <= j < ms.len() ==> #[trigger] idxs1[j] == idxs2[j],
    decreases ms.len() - d,
{
    if d < ms.len() {
        let pre = "::"@ + ms[d].name.text + seq!['_'];
        let n1 = dec_str((idxs1[d] + 1) as nat);
        let n2 = dec_str((idxs2[d] + 1) as nat);
        let rest1 = matrix_tail(ms, idxs1, d + 1);
        let rest2 = matrix_tail(ms, idxs2, d + 1);
        assert(matrix_tail(ms, idxs1, d) =~= pre + (n1 + rest1));
        assert(matrix_tail(ms, idxs2, d) =~= pre + (n2 + rest2));
        lemma_cancel_left(pre, n1 + rest1, n2 + rest2);
        lemma_dec_str_digits((idxs1[d] + 1) as nat);
        lemma_dec_str_digits((idxs2[d] + 1) as nat);
        lemma_tail_shape(ms, idxs1, d + 1);
        lemma_tail_shape(ms, idxs2, d + 1);
        assert(':' != '0' || true);
        assert(rest1.len() == 0 || !is_digit(rest1[0]));
        assert(rest2.len() == 0 || !is_digit(rest2[0]));
        lemma_digits_boundary(n1, rest1, n2, rest2);
        lemma_dec_str_val((idxs1[d] + 1) as nat);
        lemma_dec_str_val((idxs2[d] + 1) as nat);
        assert(idxs1[d] == idxs2[d]);
        lemma_tail_inj(ms, idxs1, idxs2, d + 1);
    }
}

/// Equal instantiation names carry the same case number and the same
/// matrix indices.
proof fn lemma_name_determines(
    base: crate::model::IdentM,
    cases: Seq<CaseM>,
    ms: Seq<MatrixM>,
    ci1: int,
    idxs1: Seq<int>,
    ci2: int,
    idxs2: Seq<int>,
)
    requires
        cases.len() > 0 ==> 0 <= ci1 < cases.len() && 0 <= ci2 < cases.len(),
        forall|j: int| 0 <= j < ms.len() ==> 0 <= #[trigger] idxs1[j],
        forall|j: int| 0 <= j < ms.len() ==> 0 <= #[trigger] idxs2[j],
        inst_name(base, cases, ms, ci1, idxs1) == inst_name(base, cases, ms, ci2, idxs2),
    ensures
        cases.len() > 0 ==> ci1 == ci2,
        forall|j: int| 0 <= j < ms.len() ==> #[trigger] idxs1[j] == idxs2[j],
{
    if cases.len() == 0 && ms.len() == 0 {
    } else if cases.len() == 0 {
        let pre = ms[0].name.text + seq!['_'];
        let n1 = dec_str((idxs1[0] + 1) as nat);
        let n2 = dec_str((idxs2[0] + 1) as nat);
        let rest1 = matrix_tail(ms, idxs1, 1);
        let rest2 = matrix_tail(ms, idxs2, 1);
        assert(inst_name(base, cases, ms, ci1, idxs1) =~= pre + (n1 + rest1));
        assert(inst_name(base, cases, ms, ci2, idxs2) =~= pre + (n2 + rest2));
        lemma_cancel_left(pre, n1 + rest1, n2 + rest2);
        lemma_dec_str_digits((idxs1[0] + 1) as nat);
        lemma_dec_str_digits((idxs2[0] + 1) as nat);
        lemma_tail_shape(ms, idxs1, 1);
        lemma_tail_shape(ms, idxs2, 1);
        lemma_digits_boundary(n1, rest1, n2, rest2);
        lemma_dec_str_val((idxs1[0] + 1) as nat);
        lemma_dec_str_val((idxs2[0] + 1) as nat);
        assert(idxs1[0] == idxs2[0]);
        lemma_tail_inj(ms, idxs1, idxs2, 1);
    } else {
        let hd = "case_"@;
        let n1 = dec_str((ci1 + 1) as nat);
        let n2 = dec_str((ci2 + 1) as nat);
        let r1 = (match cases[ci1].description {
            Option::Some(dd) => seq!['_'] + dd.text,
            Option::None => Seq::<char>::empty(),
        }) + matrix_tail(ms, idxs1, 0);
        let r2 = (match cases[ci2].description {
            Option::Some(dd) => seq!['_'] + dd.text,
            Option::None => Seq::<char>::empty(),
        }) + matrix_tail(ms, idxs2, 0);
        assert(inst_name(base, cases, ms, ci1, idxs1) =~= hd + (n1 + r1));
        assert(inst_name(base, cases, ms, ci2, idxs2) =~= hd + (n2 + r2));
        lemma_cancel_left(hd, n1 + r1, n2 + r2);
        lemma_dec_str_digits((ci1 + 1) as nat);
        lemma_dec_str_digits((ci2 + 1) as nat);
        lemma_tail_shape(ms, idxs1, 0);
        lemma_tail_shape(ms, idxs2, 0);
        assert(r1.len() == 0 || !is_digit(r1[0])) by {
            match cases[ci1].description {
                Option::Some(dd) => {
                    assert(r1[0] == '_');
                },
                Option::None => {
                    assert(r1 =~= matrix_tail(ms, idxs1, 0));
                },
            }
        }
        assert(r2.len() == 0 || !is_digit(r2[0])) by {
            match cases[ci2].description {
                Option::Some(dd) => {
                    assert(r2[0] == '_');
                },
                Option::None => {
                    assert(r2 =~= matrix_tail(ms, idxs2, 0));
                },
            }
        }
        lemma_digits_boundary(n1, r1, n2, r2);
        lemma_dec_str_val((ci1 + 1) as nat);
        lemma_dec_str_val((ci2 + 1) as nat);
        assert(ci1 == ci2);
        assert(case_segment(ci1, cases[ci1]) == case_segment(ci2, cases[ci2]));
        lemma_cancel_left(
            case_segment(ci1, cases[ci1]),
            matrix_tail(ms, idxs1, 0),
            matrix_tail(ms, idxs2, 0),
        );
        lemma_tail_inj(ms, idxs1, idxs2, 0);
    }
}

/// For any case list of size `N` and matrix lists of sizes `M1 … Mm`, the
/// engine produces exactly `N' × M1 × … × Mm` instantiations — `expand`'s
/// own contract counts them — and any two of them carry distinct names.
pub proof fn law_distinct_instantiation_names(
    base: crate::model::IdentM,
    cps: Seq<crate::model::IdentM>,
    cases: Seq<CaseM>,
    ms: Seq<MatrixM>,
    fixed: Seq<NamedBindM>,
    k1: nat,
    k2: nat,
)
    requires
        forall|j: int| 0 <= j < ms.len() ==> (#[trigger] ms[j]).values.len() >= 1,
        k1 < total_count(cases.len(), ms),
        k2 < total_count(cases.len(), ms),
        k1 != k2,
    ensures
        spec_instantiation(base, cps, cases, ms, fixed, k1).name != spec_instantiation(
            base,
            cps,
            cases,
            ms,
            fixed,
            k2,
        ).name,
{
    let pm = prod_from(ms, 0);
    lemma_prod_from_pos(ms, 0);
    let ci1 = (k1 / pm) as int;
    let rem1 = k1 % pm;
    let idxs1 = unrank_from(ms, rem1, 0);
    let ci2 = (k2 / pm) as int;
    let rem2 = k2 % pm;
    let idxs2 = unrank_from(ms, rem2, 0);
    lemma_unrank_in_range(ms, rem1, 0);
    lemma_unrank_in_range(ms, rem2, 0);
    if cases.len() == 0 {
        assert(total_count(0, ms) == pm);
        assert(k1 / pm == 0) by (nonlinear_arith)
            requires
                pm >= 1,
                k1 < pm,
        ;
        assert(k2 / pm == 0) by (nonlinear_arith)
            requires
                pm >= 1,
                k2 < pm,
        ;
    } else {
        assert(k1 / pm < cases.len()) by (nonlinear_arith)
            requires
                pm >= 1,
                k1 < cases.len() * pm,
        ;
        assert(k2 / pm < cases.len()) by (nonlinear_arith)
            requires
                pm >= 1,
                k2 < cases.len() * pm,
        ;
    }
    if spec_instantiation(base, cps, cases, ms, fixed, k1).name == spec_instantiation(
        base,
        cps,
        cases,
        ms,
        fixed,
        k2,
    ).name {
        lemma_name_determines(base, cases, ms, ci1, idxs1, ci2, idxs2);
        assert(idxs1 =~= idxs2);
        lemma_rank_unrank(ms, rem1, 0);
        lemma_rank_unrank(ms, rem2, 0);
        assert(rank_from(ms, idxs1, 0) == rank_from(ms, idxs2, 0));
        assert(rem1 == rem2);
        if cases.len() == 0 {
            assert(k1 % pm == k1) by (nonlinear_arith)
                requires
                    pm >= 1,
                    k1 < pm,
            ;
            assert(k2 % pm == k2) by (nonlinear_arith)
                requires
                    pm >= 1,
                    k2 < pm,
            ;
            assert(k1 == rem1 && k2 == rem2);
        } else {
            assert(ci1 == ci2);
            assert(k1 == (k1 / pm) * pm + k1 % pm) by (nonlinear_arith)
                requires
                    pm >= 1,
            ;
            assert(k2 == (k2 / pm) * pm + k2 % pm) by (nonlinear_arith)
                requires
                    pm >= 1,
            ;
        }
        assert(false);
    }
}


// --------------------------------------------------------------- the parser

/// Appending a comma does not move where a value expression ends.
proof fn lemma_expr_end_push_comma(s: Seq<Token>, c: Token, start: int, j: int)
    requires
        c.is_comma(),
        0 <= start,
        0 <= j <= s.len(),
    ensures
        expr_end(s.push(c), start, j) == expr_end(s, start, j),
    decreases s.len() - j,
{
    let s2 = s.push(c);
    if j == s.len() {
        assert(s2[j] == c);
        assert(expr_end(s2, start, j) == j);
    } else {
        assert(s2[j] == s[j]);
        if s[j].is_comma() {
        } else if pathsep_at(s, j) {
            assert(s2[j + 1] == s[j + 1]);
            assert(pathsep_at(s2, j));
            if j > start {
                assert(s2[j - 1] == s[j - 1]);
            }
            if j > start && s[j - 1].is_ident() {
                lemma_expr_end_push_comma(s, c, start, j + 2);
                assert(expr_end(s2, start, j) == expr_end(s2, start, j + 2));
                assert(expr_end(s, start, j) == expr_end(s, start, j + 2));
            } else {
                assert(expr_end(s2, start, j) == j);
                assert(expr_end(s, start, j) == j);
            }
        } else {
            assert(!pathsep_at(s2, j)) by {
                if pathsep_at(s2, j) {
                    assert(s2[j] is Punct && s2[j]->Punct_ch == ':' && s2[j]->Punct_joint);
                    if j + 1 < s.len() {
                        assert(s2[j + 1] == s[j + 1]);
                        assert(pathsep_at(s, j));
                    } else {
                        assert(s2[j + 1] == c);
                        assert(!(s2[j + 1]->Punct_ch == ':'));
                    }
                }
            }
            lemma_expr_end_push_comma(s, c, start, j + 1);
        }
    }
}

/// Appending a comma does not change how an item reads.
proof fn lemma_parse_item_push_comma(s: Seq<Token>, c: Token, i: int)
    requires
        c.is_comma(),
        0 <= i < s.len(),
        spec_parse_item(s, i) is Parsed,
    ensures
        spec_parse_item(s.push(c), i) == spec_parse_item(s, i),
{
    let s2 = s.push(c);
    assert(s2[i] == s[i]);
    if i + 1 < s.len() {
        assert(s2[i + 1] == s[i + 1]);
    } else {
        assert(s2[i + 1] == c);
    }
    if s[i].is_ident() {
        if i + 1 < s.len() && s[i + 1].is_eq_alone() {
            let st = i + 2;
            crate::parser::lemma_expr_end_bounds(s, st, st);
            if st <= s.len() {
                lemma_expr_end_push_comma(s, c, st, st);
                let e = expr_end(s, st, st);
                if st < e <= s.len() {
                    assert(s2.subrange(st, e) =~= s.subrange(st, e));
                    assert(s2[st] == s[st]);
                    assert(s2[e - 1] == s[e - 1]);
                }
            }
        } else if i + 1 < s.len() && s[i + 1].is_paren_group() {
        } else {
            assert(!(i + 1 < s2.len() && s2[i + 1].is_eq_alone()));
            assert(!(i + 1 < s2.len() && s2[i + 1].is_paren_group()));
        }
    }
}

/// Appending a comma to an item list that ran to the end of the input —
/// and did not already end with a comma — reads back the same items, the
/// new comma consumed.
proof fn lemma_items_push_comma(s: Seq<Token>, c: Token, i: int)
    requires
        c.is_comma(),
        0 <= i < s.len(),
        spec_parse_items(s, i) is Parsed,
        spec_parse_items(s, i)->Parsed_next == s.len(),
        !s[s.len() - 1].is_comma(),
    ensures
        spec_parse_items(s.push(c), i) == (POut::Parsed {
            v: spec_parse_items(s, i)->Parsed_v,
            next: s.len() as int + 1,
        }),
    decreases s.len() - i,
{
    let s2 = s.push(c);
    assert(s2[i] == s[i]);
    assert(!pathsep_at(s, i)) by {
        if pathsep_at(s, i) {
            assert(spec_parse_items(s, i)->Parsed_next == i);
        }
    }
    assert(!pathsep_at(s2, i)) by {
        if pathsep_at(s2, i) {
            if i + 1 < s.len() {
                assert(s2[i + 1] == s[i + 1]);
                assert(pathsep_at(s, i));
            } else {
                assert(s2[i + 1] == c);
            }
        }
    }
    match spec_parse_item(s, i) {
        POut::Failed { .. } => {
            assert(false);
        },
        POut::Parsed { v: item, next: j0 } => {
            crate::parser::lemma_parse_item_bounds(s, i);
            lemma_parse_item_push_comma(s, c, i);
            let j = j0;
            if j >= s.len() {
                // the item ran to the end; the new comma becomes the
                // tolerated trailing comma
                assert(j == s.len());
                assert(s2[j] == c);
                assert(s2[j].is_comma());
                assert(j + 1 >= s2.len());
                assert(spec_parse_items(s2, i) == (POut::Parsed {
                    v: seq![item],
                    next: j + 1,
                }));
            } else if s[j].is_comma() {
                if j + 1 >= s.len() || pathsep_at(s, j + 1) {
                    // the list already ended with a comma
                    assert(spec_parse_items(s, i)->Parsed_next == j + 1);
                    if pathsep_at(s, j + 1) {
                        assert(j + 2 < s.len());
                    } else {
                        assert(j + 1 == s.len());
                        assert(s[s.len() - 1].is_comma());
                    }
                    assert(false);
                } else {
                    assert(s2[j] == s[j]);
                    assert(!pathsep_at(s2, j + 1)) by {
                        if pathsep_at(s2, j + 1) {
                            if j + 2 < s.len() {
                                assert(s2[j + 1] == s[j + 1]);
                                assert(s2[j + 2] == s[j + 2]);
                                assert(pathsep_at(s, j + 1));
                            } else {
                                assert(s2[j + 2] == c);
                            }
                        }
                    }
                    assert(j + 1 < s2.len());
                    lemma_items_push_comma(s, c, j + 1);
                }
            } else if pathsep_at(s, j) {
                assert(spec_parse_items(s, i)->Parsed_next == j);
                assert(j + 1 < s.len());
                assert(false);
            } else {
                assert(false);
            }
        },
    }
}

/// A well-formed annotation with no modifier section, not already ending
/// in a comma, accepts a trailing comma before the end of the input and
/// parses to the same model — in particular, to the same item count.
pub proof fn law_trailing_comma_before_end(s: Seq<Token>, c: Token)
    requires
        c.is_comma(),
        s.len() > 0,
        spec_parse(s) is Parsed,
        spec_parse_items(s, 0) is Parsed,
        spec_parse_items(s, 0)->Parsed_next == s.len(),
        !s[s.len() - 1].is_comma(),
    ensures
        spec_parse(s.push(c)) == spec_parse(s),
{
    let s2 = s.push(c);
    lemma_items_push_comma(s, c, 0);
    assert(spec_parse_items(s2, 0)->Parsed_next == s.len() + 1);
    assert(s2.len() == s.len() + 1);
}


/// `s2` is `s` with one comma put in at position `m`.
pub open spec fn comma_inserted_at(s: Seq<Token>, s2: Seq<Token>, m: int) -> bool {
    &&& 0 <= m <= s.len()
    &&& s2.len() == s.len() + 1
    &&& forall|k: int| 0 <= k < m ==> s2[k] == s[k]
    &&& s2[m].is_comma()
    &&& forall|k: int| m < k < s2.len() ==> s2[k] == s[k - 1]
}

/// An expression that ends at a comma, or exactly at the `::` boundary,
/// ends at the same place once a comma stands at the boundary.
proof fn lemma_expr_end_insert(s: Seq<Token>, s2: Seq<Token>, m: int, start: int, j: int)
    requires
        comma_inserted_at(s, s2, m),
        pathsep_at(s, m),
        0 <= start,
        start <= j <= m,
        expr_end(s, start, j) <= m,
        expr_end(s, start, j) < m ==> s[expr_end(s, start, j)].is_comma(),
    ensures
        expr_end(s2, start, j) == expr_end(s, start, j),
    decreases m - j,
{
    let e = expr_end(s, start, j);
    if j == m {
        assert(s[m] is Punct && s[m]->Punct_ch == ':');
        assert(!s[m].is_comma());
        if j > start && s[j - 1].is_ident() {
            crate::parser::lemma_expr_end_bounds(s, start, j + 2);
            assert(e >= j + 2);
            assert(false);
        }
        assert(e == m);
        assert(s2[m].is_comma());
        assert(expr_end(s2, start, m) == m);
    } else {
        assert(s2[j] == s[j]);
        if s[j].is_comma() {
        } else if pathsep_at(s, j) {
            if j + 1 < m {
                assert(s2[j + 1] == s[j + 1]);
                assert(pathsep_at(s2, j));
                if j > start && s[j - 1].is_ident() {
                    assert(s2[j - 1] == s[j - 1]);
                    assert(e == expr_end(s, start, j + 2));
                    assert(j + 2 <= m) by {
                        crate::parser::lemma_expr_end_bounds(s, start, j + 2);
                    }
                    lemma_expr_end_insert(s, s2, m, start, j + 2);
                } else {
                    assert(e == j);
                    assert(!s[j].is_comma());
                    assert(false);
                }
            } else {
                // the pathsep straddles the boundary: j + 1 == m
                assert(j + 1 == m);
                if j > start && s[j - 1].is_ident() {
                    crate::parser::lemma_expr_end_bounds(s, start, j + 2);
                    assert(e >= j + 2 > m);
                    assert(false);
                } else {
                    assert(e == j);
                    assert(!s[j].is_comma());
                    assert(false);
                }
            }
        } else {
            assert(!pathsep_at(s2, j)) by {
                if pathsep_at(s2, j) {
                    if j + 1 < m {
                        assert(s2[j + 1] == s[j + 1]);
                        assert(pathsep_at(s, j));
                    } else {
                        assert(j + 1 == m);
                        assert(s2[j + 1] == s2[m]);
                        assert(s2[m].is_comma());
                    }
                }
            }
            assert(e == expr_end(s, start, j + 1));
            lemma_expr_end_insert(s, s2, m, start, j + 1);
        }
    }
}

/// An item that ends at a comma, or exactly at the `::` boundary, reads
/// back unchanged once a comma stands at the boundary.
proof fn lemma_parse_item_insert(s: Seq<Token>, s2: Seq<Token>, m: int, i: int)
    requires
        comma_inserted_at(s, s2, m),
        pathsep_at(s, m),
        0 <= i < m,
        spec_parse_item(s, i) is Parsed,
        spec_parse_item(s, i)->Parsed_next <= m,
        spec_parse_item(s, i)->Parsed_next < m ==> s[spec_parse_item(s, i)->Parsed_next].is_comma(),
    ensures
        spec_parse_item(s2, i) == spec_parse_item(s, i),
{
    assert(m < s.len());
    assert(s2[i] == s[i]);
    assert(s[i].is_ident());
    if i + 1 < m {
        assert(s2[i + 1] == s[i + 1]);
    } else {
        assert(i + 1 == m);
        assert(s2[i + 1].is_comma());
        assert(s[i + 1] == s[m]);
        assert(s[m] is Punct && s[m]->Punct_ch == ':' && s[m]->Punct_joint);
        assert(!s[i + 1].is_eq_alone());
        assert(!s[i + 1].is_paren_group());
        assert(!s2[i + 1].is_eq_alone());
        assert(!s2[i + 1].is_paren_group());
    }
    if i + 1 < m && s[i + 1].is_eq_alone() {
        let st = i + 2;
        let e = expr_end(s, st, st);
        crate::parser::lemma_expr_end_bounds(s, st, st);
        assert(st < e <= s.len());
        assert(e == spec_parse_item(s, i)->Parsed_next);
        assert(st <= m);
        lemma_expr_end_insert(s, s2, m, st, st);
        assert(s2.subrange(st, e) =~= s.subrange(st, e)) by {
            assert(forall|k: int| st <= k < e ==> s2[k] == s[k]);
        }
        assert(s2[st] == s[st]);
        assert(s2[e - 1] == s[e - 1]);
    }
}

/// Putting a comma right before the `::` boundary of an item list that
/// does not already end in one reads back the same items, the new comma
/// consumed.
proof fn lemma_items_insert(s: Seq<Token>, s2: Seq<Token>, m: int, i: int)
    requires
        comma_inserted_at(s, s2, m),
        pathsep_at(s, m),
        0 <= i < m,
        spec_parse_items(s, i) is Parsed,
        spec_parse_items(s, i)->Parsed_next == m,
        !s[m - 1].is_comma(),
    ensures
        spec_parse_items(s2, i) == (POut::Parsed {
            v: spec_parse_items(s, i)->Parsed_v,
            next: m + 1,
        }),
    decreases m - i,
{
    assert(m < s.len());
    assert(s2[i] == s[i]);
    assert(!pathsep_at(s, i)) by {
        if pathsep_at(s, i) {
            assert(spec_parse_items(s, i)->Parsed_next == i);
        }
    }
    assert(!pathsep_at(s2, i)) by {
        if pathsep_at(s2, i) {
            if i + 1 < m {
                assert(s2[i + 1] == s[i + 1]);
                assert(pathsep_at(s, i));
            } else {
                assert(i + 1 == m);
                assert(s2[i + 1].is_comma());
            }
        }
    }
    match spec_parse_item(s, i) {
        POut::Failed { .. } => {
            assert(false);
        },
        POut::Parsed { v: item, next: j } => {
            crate::parser::lemma_parse_item_bounds(s, i);
            if j >= s.len() {
                assert(spec_parse_items(s, i)->Parsed_next == j);
                assert(false);
            } else if s[j].is_comma() {
                if j + 1 >= s.len() || pathsep_at(s, j + 1) {
                    assert(spec_parse_items(s, i)->Parsed_next == j + 1);
                    assert(j + 1 == m);
                    assert(s[m - 1].is_comma());
                    assert(false);
                } else {
                    // the list goes on after the comma
                    let rest = spec_parse_items(s, j + 1);
                    assert(rest is Parsed && rest->Parsed_next == m);
                    assert(j < m) by {
                        if j >= m {
                            crate::parser::lemma_parse_items_stop(s, j + 1);
                            assert(j + 1 <= m);
                        }
                    }
                    assert(j + 1 < m) by {
                        if j + 1 == m {
                            assert(pathsep_at(s, j + 1));
                        }
                    }
                    lemma_parse_item_insert(s, s2, m, i);
                    assert(s2[j] == s[j]);
                    assert(!pathsep_at(s2, j + 1)) by {
                        if pathsep_at(s2, j + 1) {
                            if j + 2 < m {
                                assert(s2[j + 1] == s[j + 1]);
                                assert(s2[j + 2] == s[j + 2]);
                                assert(pathsep_at(s, j + 1));
                            } else {
                                assert(j + 2 == m);
                                assert(s2[j + 2].is_comma());
                            }
                        }
                    }
                    assert(j + 1 < s2.len());
                    lemma_items_insert(s, s2, m, j + 1);
                }
            } else if pathsep_at(s, j) {
                // the item ends exactly at the boundary
                assert(spec_parse_items(s, i)->Parsed_next == j);
                assert(j == m);
                lemma_parse_item_insert(s, s2, m, i);
                assert(s2[m].is_comma());
                assert(m + 1 < s2.len());
                assert(pathsep_at(s2, m + 1)) by {
                    assert(s2[m + 1] == s[m]);
                    assert(s2[m + 2] == s[m + 1]);
                }
                assert(spec_parse_items(s2, i) == (POut::Parsed { v: seq![item], next: m + 1 }));
            } else {
                assert(false);
            }
        },
    }
}

/// The scan for a closing angle moves one step right with the insertion.
proof fn lemma_close_angle_shift(s: Seq<Token>, s2: Seq<Token>, m: int, j: int, depth: int)
    requires
        comma_inserted_at(s, s2, m),
        m < j <= s2.len(),
    ensures
        close_angle(s2, j, depth) == close_angle(s, j - 1, depth) + 1,
    decreases s2.len() - j,
{
    if j < s2.len() {
        assert(s2[j] == s[j - 1]);
        if s2[j] is Punct && s2[j]->Punct_ch == '<' {
            lemma_close_angle_shift(s, s2, m, j + 1, depth + 1);
        } else if s2[j] is Punct && s2[j]->Punct_ch == '>' {
            if depth > 1 {
                lemma_close_angle_shift(s, s2, m, j + 1, depth - 1);
            }
        } else {
            lemma_close_angle_shift(s, s2, m, j + 1, depth);
        }
    }
}

/// One modifier reads the same one step to the right of the insertion.
proof fn lemma_parse_attr_shift(s: Seq<Token>, s2: Seq<Token>, m: int, i: int)
    requires
        comma_inserted_at(s, s2, m),
        m < i <= s2.len(),
    ensures
        spec_parse_attr(s, i - 1) is Parsed <==> spec_parse_attr(s2, i) is Parsed,
        spec_parse_attr(s, i - 1) is Parsed ==> spec_parse_attr(s2, i) == (POut::Parsed {
            v: spec_parse_attr(s, i - 1)->Parsed_v,
            next: spec_parse_attr(s, i - 1)->Parsed_next + 1,
        }),
{
    if i < s2.len() {
        assert(s2[i] == s[i - 1]);
        if s[i - 1].is_ident() {
            if i + 1 < s2.len() {
                assert(s2[i + 1] == s[i]);
            }
            if i < s.len() && s[i] is Punct && s[i]->Punct_ch == '<' {
                lemma_close_angle_shift(s, s2, m, i + 2, 1);
                let g = close_angle(s, i + 1, 1);
                crate::parser::lemma_close_angle_bounds(s, i + 1, 1);
                if g < s.len() && g > i + 1 {
                    let gt = g + 1;
                    assert(s2.subrange(i + 2, gt) =~= s.subrange(i + 1, g)) by {
                        assert(forall|k: int| i + 2 <= k < gt ==> s2[k] == s[k - 1]);
                    }
                    assert(s2[i + 2] == s[i + 1]);
                    assert(s2[gt - 1] == s[g - 1]);
                }
            }
        }
    }
}

/// The modifier section reads the same one step to the right of the
/// insertion.
proof fn lemma_parse_attrs_shift(s: Seq<Token>, s2: Seq<Token>, m: int, i: int)
    requires
        comma_inserted_at(s, s2, m),
        m < i <= s2.len(),
        spec_parse_attrs(s, i - 1) is Parsed,
    ensures
        spec_parse_attrs(s2, i) is Parsed,
        spec_parse_attrs(s2, i)->Parsed_v == spec_parse_attrs(s, i - 1)->Parsed_v,
    decreases s2.len() - i,
{
    if i >= s2.len() {
        assert(i - 1 >= s.len());
    } else {
        assert(i - 1 < s.len());
        match spec_parse_attr(s, i - 1) {
            POut::Failed { .. } => {
                assert(false);
            },
            POut::Parsed { v: a, next: j0 } => {
                crate::parser::lemma_parse_attr_bounds(s, i - 1);
                lemma_parse_attr_shift(s, s2, m, i);
                let j = j0;
                if j >= s.len() {
                } else {
                    assert(pathsep_at(s2, j + 1) <==> pathsep_at(s, j)) by {
                        if j + 1 < s2.len() {
                            assert(s2[j + 1] == s[j]);
                        }
                        if j + 2 < s2.len() {
                            assert(s2[j + 2] == s[j + 1]);
                        }
                    }
                    if pathsep_at(s, j) {
                        if j + 2 >= s.len() {
                        } else {
                            lemma_parse_attrs_shift(s, s2, m, j + 3);
                        }
                    }
                }
            },
        }
    }
}

/// A well-formed annotation accepts a trailing comma before its `::`
/// modifier boundary — unless one already stands there — and parses to
/// the same model: the same items, so certainly the same item count, and
/// the same modifiers.
pub proof fn law_trailing_comma_before_modifiers(s: Seq<Token>, c: Token, m: int)
    requires
        c.is_comma(),
        spec_parse(s) is Parsed,
        spec_parse_items(s, 0) is Parsed,
        spec_parse_items(s, 0)->Parsed_next == m,
        pathsep_at(s, m),
        0 < m,
        !s[m - 1].is_comma(),
    ensures
        spec_parse(s.take(m) + seq![c] + s.skip(m)) == spec_parse(s),
{
    let s2 = s.take(m) + seq![c] + s.skip(m);
    crate::parser::lemma_parse_items_stop(s, 0);
    assert(comma_inserted_at(s, s2, m)) by {
        assert(s2.len() == s.len() + 1);
        assert(forall|k: int| 0 <= k < m ==> s2[k] == s[k]);
        assert(s2[m] == c);
        assert(forall|k: int| m < k < s2.len() ==> s2[k] == s[k - 1]);
    }
    lemma_items_insert(s, s2, m, 0);
    assert(s2.len() > 0);
    assert(spec_parse_items(s2, 0)->Parsed_next == m + 1);
    assert(m + 1 < s2.len());
    assert(pathsep_at(s2, m + 1)) by {
        assert(s2[m + 1] == s[m]);
        assert(s2[m + 2] == s[m + 1]);
    }
    assert(m + 2 <= s.len());
    match spec_parse_attrs(s, m + 2) {
        POut::Failed { .. } => {
            assert(false);
        },
        POut::Parsed { .. } => {
            lemma_parse_attrs_shift(s, s2, m, m + 3);
        },
    }
}

} // verus!
