//! The case/matrix expansion engine.
//!
//! A validated binding plan expands into the ordered set of
//! instantiations: the outer dimension runs through the case tuples in
//! declaration order, and within one case the matrix-bound parameters'
//! value lists are enumerated as a mixed-radix odometer, the
//! last-declared list varying fastest — callers may rely on that order.
//! Combination number `k` therefore denotes case `k / (M1·…·Mm)`, and the
//! remainder, read in mixed radix, the matrix indices. Every
//! instantiation carries a deterministic, human-readable name: a
//! `case_{i}` segment (with the case's description appended, if it has
//! one), then one `{param}_{j}` segment per matrix parameter, the
//! segments joined by `::`; with neither cases nor matrix lists, the one
//! bare instantiation is named after the function itself.

use vstd::prelude::*;
use crate::matcher::{Case, CaseM, MatrixDecl, MatrixM};
use crate::model::{ExprM, ExprSpan, IdentM, IdentS};
use crate::names::{dec_str, push_dec};
use crate::outside::chars_of;
use crate::resolver::{CallM, FixtureCall};
use crate::token::extend_chars;

verus! {

/// What a parameter is bound to in one instantiation.
#[derive(Debug)]
pub enum BindingValue {
    /// A literal value expression.
    Value(ExprSpan),
    /// A fixture call.
    Call(FixtureCall),
}

/// One parameter bound.
#[derive(Debug)]
pub struct NamedBinding {
    pub name: IdentS,
    pub value: BindingValue,
}

/// One fully resolved, concretely named test entry.
#[derive(Debug)]
pub struct Instantiation {
    /// The deterministic name, relative to the annotated function.
    pub name: Vec<char>,
    /// 1-based case number; 0 when there is no case dimension.
    pub case_index: usize,
    /// 1-based value index per matrix parameter, declaration order.
    pub matrix_indices: Vec<usize>,
    /// The complete bindings: case-bound, then matrix-bound, then the
    /// fixture and default bindings shared by every instantiation.
    pub bindings: Vec<NamedBinding>,
}

#[verifier::ext_equal]
pub enum BindValM {
    Value(ExprM),
    Call(CallM),
}

#[verifier::ext_equal]
pub struct NamedBindM {
    pub name: IdentM,
    pub value: BindValM,
}

#[verifier::ext_equal]
pub struct InstM {
    pub name: Seq<char>,
    pub case_index: int,
    pub matrix_indices: Seq<int>,
    pub bindings: Seq<NamedBindM>,
}

impl View for BindingValue {
    type V = BindValM;

    open spec fn view(&self) -> BindValM {
        match self {
            BindingValue::Value(e) => BindValM::Value(e@),
            BindingValue::Call(c) => BindValM::Call(c@),
        }
    }
}

impl View for NamedBinding {
    type V = NamedBindM;

    open spec fn view(&self) -> NamedBindM {
        NamedBindM { name: self.name@, value: self.value@ }
    }
}

impl View for Instantiation {
    type V = InstM;

    open spec fn view(&self) -> InstM {
        InstM {
            name: self.name@,
            case_index: self.case_index as int,
            matrix_indices: self.matrix_indices@.map_values(|u: usize| u as int),
            bindings: self.bindings@.map_values(|b: NamedBinding| b@),
        }
    }
}

impl BindingValue {
    /// A fresh copy of this binding value.
    pub fn duplicate(&self) -> (r: BindingValue)
        ensures
            r@ == self@,
    {
        match self {
            BindingValue::Value(e) => BindingValue::Value(e.duplicate()),
            BindingValue::Call(c) => BindingValue::Call(c.duplicate()),
        }
    }
}

impl NamedBinding {
    /// A fresh copy of this binding.
    pub fn duplicate(&self) -> (r: NamedBinding)
        ensures
            r@ == self@,
    {
        let r = NamedBinding { name: self.name.duplicate(), value: self.value.duplicate() };
        proof {
            assert(r@ =~~= self@);
        }
        r
    }
}

// ----------------------------------------------------------- combinatorics

/// The number of combinations of the matrix lists from dimension `d` on.
pub open spec fn prod_from(ms: Seq<MatrixM>, d: int) -> nat
    decreases ms.len() - d,
{
    if d < 0 || d >= ms.len() {
        1
    } else {
        ms[d].values.len() * prod_from(ms, d + 1)
    }
}

/// With no case tuples there is still one combination to bind.
pub open spec fn effective_cases(ncases: nat) -> nat {
    if ncases == 0 {
        1
    } else {
        ncases
    }
}

/// Exactly how many instantiations expansion produces.
pub open spec fn total_count(ncases: nat, ms: Seq<MatrixM>) -> nat {
    effective_cases(ncases) * prod_from(ms, 0)
}

/// The 0-based matrix indices of combination `r`, dimensions `d` on: the
/// last dimension varies fastest.
pub open spec fn unrank_from(ms: Seq<MatrixM>, r: nat, d: int) -> Seq<int>
    decreases ms.len() - d,
{
    if d < 0 || d >= ms.len() {
        Seq::empty()
    } else {
        let rest = prod_from(ms, d + 1);
        seq![(r / rest) as int] + unrank_from(ms, r % rest, d + 1)
    }
}

/// The combination number of an index vector for dimensions `d` on (its
/// first entry is dimension `d`'s index).
pub open spec fn rank_from(ms: Seq<MatrixM>, idxs: Seq<int>, d: int) -> int
    decreases ms.len() - d,
{
    if d < 0 || d >= ms.len() {
        0
    } else {
        idxs[0] * prod_from(ms, d + 1) + rank_from(ms, idxs.drop_first(), d + 1)
    }
}

pub proof fn lemma_prod_from_pos(ms: Seq<MatrixM>, d: int)
    requires
        forall|j: int| 0 <= j < ms.len() ==> (#[trigger] ms[j]).values.len() >= 1,
    ensures
        prod_from(ms, d) >= 1,
    decreases ms.len() - d,
{
    if 0 <= d < ms.len() {
        lemma_prod_from_pos(ms, d + 1);
        assert(ms[d].values.len() * prod_from(ms, d + 1) >= 1) by (nonlinear_arith)
            requires
                ms[d].values.len() >= 1,
                prod_from(ms, d + 1) >= 1,
        ;
    }
}

/// Later tails of the product never exceed earlier ones.
pub proof fn lemma_prod_from_le(ms: Seq<MatrixM>, d1: int, d2: int)
    requires
        forall|j: int| 0 <= j < ms.len() ==> (#[trigger] ms[j]).values.len() >= 1,
        0 <= d1 <= d2,
    ensures
        prod_from(ms, d2) <= prod_from(ms, d1),
    decreases d2 - d1,
{
    if d1 < d2 {
        lemma_prod_from_le(ms, d1 + 1, d2);
        if d1 < ms.len() {
            lemma_prod_from_pos(ms, d1 + 1);
            assert(prod_from(ms, d1 + 1) <= ms[d1].values.len() * prod_from(ms, d1 + 1))
                by (nonlinear_arith)
                requires
                    ms[d1].values.len() >= 1,
            ;
        }
    }
}

/// Every index the odometer produces is within its dimension's list.
pub proof fn lemma_unrank_in_range(ms: Seq<MatrixM>, r: nat, d: int)
    requires
        forall|j: int| 0 <= j < ms.len() ==> (#[trigger] ms[j]).values.len() >= 1,
        0 <= d <= ms.len(),
        r < prod_from(ms, d),
    ensures
        unrank_from(ms, r, d).len() == ms.len() - d,
        forall|j: int|
            0 <= j < ms.len() - d ==> 0 <= #[trigger] unrank_from(ms, r, d)[j] < ms[d + j].values.len(),
    decreases ms.len() - d,
{
    if d < ms.len() {
        let rest = prod_from(ms, d + 1);
        lemma_prod_from_pos(ms, d + 1);
        assert(r / rest < ms[d].values.len()) by (nonlinear_arith)
            requires
                rest >= 1,
                r < ms[d].values.len() * rest,
        ;
        assert(r % rest < rest);
        lemma_unrank_in_range(ms, r % rest, d + 1);
        assert forall|j: int| 0 <= j < ms.len() - d implies 0 <= #[trigger] unrank_from(
            ms,
            r,
            d,
        )[j] < ms[d + j].values.len() by {
            if j == 0 {
            } else {
                assert(unrank_from(ms, r, d)[j] == unrank_from(ms, r % rest, d + 1)[j - 1]);
            }
        }
    }
}

/// Reading the odometer back gives the combination number.
pub proof fn lemma_rank_unrank(ms: Seq<MatrixM>, r: nat, d: int)
    requires
        forall|j: int| 0 <= j < ms.len() ==> (#[trigger] ms[j]).values.len() >= 1,
        0 <= d <= ms.len(),
        r < prod_from(ms, d),
    ensures
        rank_from(ms, unrank_from(ms, r, d), d) == r,
    decreases ms.len() - d,
{
    if d < ms.len() {
        let rest = prod_from(ms, d + 1);
        lemma_prod_from_pos(ms, d + 1);
        assert(r % rest < rest);
        lemma_rank_unrank(ms, r % rest, d + 1);
        let full = unrank_from(ms, r, d);
        let sub = unrank_from(ms, r % rest, d + 1);
        assert(full[0] == (r / rest) as int);
        assert(full.drop_first() =~= sub);
        assert(rank_from(ms, full, d) == (r / rest) * rest + rank_from(ms, sub, d + 1));
        assert(r == (r / rest) * rest + r % rest) by (nonlinear_arith)
            requires
                rest >= 1,
        ;
    } else {
        assert(rank_from(ms, unrank_from(ms, r, d), d) == 0);
    }
}


// ------------------------------------------------------------------- names

/// The case segment: `case_{i}`, the description appended when present.
pub open spec fn case_segment(ci: int, c: CaseM) -> Seq<char> {
    "case_"@ + dec_str((ci + 1) as nat) + (match c.description {
        Option::Some(d) => seq!['_'] + d.text,
        Option::None => Seq::empty(),
    })
}

/// One matrix segment: `{param}_{j}`.
pub open spec fn matrix_segment(m: MatrixM, idx: int) -> Seq<char> {
    m.name.text + seq!['_'] + dec_str((idx + 1) as nat)
}

/// The matrix segments from dimension `d` on, each behind a `::`.
pub open spec fn matrix_tail(ms: Seq<MatrixM>, idxs: Seq<int>, d: int) -> Seq<char>
    decreases ms.len() - d,
{
    if d < 0 || d >= ms.len() {
        Seq::empty()
    } else {
        "::"@ + matrix_segment(ms[d], idxs[d]) + matrix_tail(ms, idxs, d + 1)
    }
}

/// The whole instantiation name: the case segment and the matrix
/// segments, `::`-joined; the bare signature keeps the function's name.
pub open spec fn inst_name(
    base: IdentM,
    cases: Seq<CaseM>,
    ms: Seq<MatrixM>,
    ci: int,
    idxs: Seq<int>,
) -> Seq<char> {
    if cases.len() == 0 && ms.len() == 0 {
        base.text
    } else if cases.len() == 0 {
        matrix_segment(ms[0], idxs[0]) + matrix_tail(ms, idxs, 1)
    } else {
        case_segment(ci, cases[ci]) + matrix_tail(ms, idxs, 0)
    }
}

// ---------------------------------------------------------------- bindings

/// The case-bound parameters, each bound to its entry of the case tuple.
pub open spec fn case_bindings(cps: Seq<IdentM>, c: CaseM) -> Seq<NamedBindM> {
    Seq::new(cps.len(), |k: int| NamedBindM { name: cps[k], value: BindValM::Value(c.args[k]) })
}

/// The matrix-bound parameters, each bound to its chosen value.
pub open spec fn matrix_bindings(ms: Seq<MatrixM>, idxs: Seq<int>) -> Seq<NamedBindM> {
    Seq::new(
        ms.len(),
        |d: int| NamedBindM { name: ms[d].name, value: BindValM::Value(ms[d].values[idxs[d]]) },
    )
}

/// Instantiation number `k`, in full: its name, its case number, its
/// matrix indices, and its complete bindings — case values first, matrix
/// values next, the shared fixture and default bindings last.
pub open spec fn spec_instantiation(
    base: IdentM,
    cps: Seq<IdentM>,
    cases: Seq<CaseM>,
    ms: Seq<MatrixM>,
    fixed: Seq<NamedBindM>,
    k: nat,
) -> InstM {
    let pm = prod_from(ms, 0);
    let ci = (k / pm) as int;
    let rem = k % pm;
    let idxs = unrank_from(ms, rem, 0);
    InstM {
        name: inst_name(base, cases, ms, ci, idxs),
        case_index: if cases.len() == 0 {
            0
        } else {
            ci + 1
        },
        matrix_indices: Seq::new(ms.len(), |d: int| idxs[d] + 1),
        bindings: (if cases.len() == 0 {
            Seq::empty()
        } else {
            case_bindings(cps, cases[ci])
        }) + matrix_bindings(ms, idxs) + fixed,
    }
}

pub open spec fn mviews(s: Seq<MatrixDecl>) -> Seq<MatrixM> {
    s.map_values(|m: MatrixDecl| m@)
}

pub open spec fn cviews(s: Seq<Case>) -> Seq<CaseM> {
    s.map_values(|c: Case| c@)
}

pub open spec fn iviews(s: Seq<IdentS>) -> Seq<IdentM> {
    s.map_values(|i: IdentS| i@)
}

pub open spec fn bviews(s: Seq<NamedBinding>) -> Seq<NamedBindM> {
    s.map_values(|b: NamedBinding| b@)
}

// -------------------------------------------------------------- executable

fn prod_from_exec(matrix: &Vec<MatrixDecl>, d: usize) -> (r: usize)
    requires
        d <= matrix@.len(),
        forall|j: int| 0 <= j < mviews(matrix@).len() ==> (#[trigger] mviews(matrix@)[j]).values.len() >= 1,
        prod_from(mviews(matrix@), 0) <= usize::MAX,
    ensures
        r as nat == prod_from(mviews(matrix@), d as int),
        r >= 1,
    decreases matrix@.len() - d,
{
    let ghost ms = mviews(matrix@);
    if d >= matrix.len() {
        1
    } else {
        let rest = prod_from_exec(matrix, d + 1);
        proof {
            lemma_prod_from_le(ms, 0, d as int);
            assert(ms[d as int] == matrix@[d as int]@);
            assert(prod_from(ms, d as int) == ms[d as int].values.len() * prod_from(
                ms,
                d + 1,
            ));
            lemma_prod_from_pos(ms, d as int);
        }
        matrix[d].values.len() * rest
    }
}

/// Build instantiation number `k`.
fn build_one(
    base: &IdentS,
    case_params: &Vec<IdentS>,
    cases: &Vec<Case>,
    matrix: &Vec<MatrixDecl>,
    fixed: &Vec<NamedBinding>,
    k: usize,
    pm: usize,
) -> (r: Instantiation)
    requires
        forall|j: int| 0 <= j < mviews(matrix@).len() ==> (#[trigger] mviews(matrix@)[j]).values.len() >= 1,
        forall|c: int|
            0 <= c < cviews(cases@).len() ==> (#[trigger] cviews(cases@)[c]).args.len()
                == iviews(case_params@).len(),
        pm as nat == prod_from(mviews(matrix@), 0),
        (k as nat) < total_count(cases@.len(), mviews(matrix@)),
    ensures
        r@ == spec_instantiation(
            base@,
            iviews(case_params@),
            cviews(cases@),
            mviews(matrix@),
            bviews(fixed@),
            k as nat,
        ),
{
    let ghost ms = mviews(matrix@);
    let ghost cs = cviews(cases@);
    let ghost cps = iviews(case_params@);
    let ghost fm = bviews(fixed@);
    proof {
        lemma_prod_from_pos(ms, 0);
    }
    let ci = k / pm;
    let rem = k % pm;
    proof {
        if cases@.len() == 0 {
            assert(total_count(0, ms) == prod_from(ms, 0));
            assert(k < pm);
            assert((k as nat) / (pm as nat) == 0) by (nonlinear_arith)
                requires
                    (pm as nat) >= 1,
                    (k as nat) < (pm as nat),
            ;
            assert(ci == 0);
        } else {
            assert((k as nat) / (pm as nat) < cs.len()) by (nonlinear_arith)
                requires
                    pm as nat >= 1,
                    (k as nat) < cs.len() * (pm as nat),
            ;
        }
        assert(rem as nat == (k as nat) % (pm as nat));
        assert((rem as nat) < prod_from(ms, 0));
    }
    let ghost gidxs = unrank_from(ms, rem as nat, 0);
    proof {
        lemma_unrank_in_range(ms, rem as nat, 0);
    }
    // the matrix indices of this combination, last dimension fastest
    let mut idxs: Vec<usize> = Vec::new();
    let mut remv: usize = rem;
    let mut d: usize = 0;
    proof {
        assert(gidxs =~= idxs@.map_values(|u: usize| u as int) + unrank_from(
            ms,
            remv as nat,
            0,
        ));
    }
    while d < matrix.len()
        invariant
            d <= matrix@.len(),
            idxs@.len() == d,
            ms == mviews(matrix@),
            forall|j: int| 0 <= j < ms.len() ==> (#[trigger] ms[j]).values.len() >= 1,
            prod_from(ms, 0) <= usize::MAX,
            (remv as nat) < prod_from(ms, d as int),
            gidxs == idxs@.map_values(|u: usize| u as int) + unrank_from(
                ms,
                remv as nat,
                d as int,
            ),
            forall|j: int| 0 <= j < d ==> (#[trigger] idxs@[j]) as int == gidxs[j],
        decreases matrix@.len() - d,
    {
        let ghost iprev = idxs@;
        let ghost rprev = remv;
        let rest = prod_from_exec(matrix, d + 1);
        let idx = remv / rest;
        remv = remv % rest;
        idxs.push(idx);
        d += 1;
        proof {
            assert(ms[d - 1] == matrix@[d - 1]@);
            assert((idx as nat) < ms[d - 1].values.len()) by (nonlinear_arith)
                requires
                    (rest as nat) >= 1,
                    (rprev as nat) < ms[d - 1].values.len() * (rest as nat),
                    (idx as nat) == (rprev as nat) / (rest as nat),
                    (rest as nat) == prod_from(ms, d as int),
                    prod_from(ms, d - 1) == ms[d - 1].values.len() * prod_from(ms, d as int),
            ;
            assert(unrank_from(ms, rprev as nat, d - 1) == seq![(rprev as nat / rest as nat) as int]
                + unrank_from(ms, (rprev as nat) % (rest as nat), d as int));
            assert(idxs@.map_values(|u: usize| u as int) =~= iprev.map_values(|u: usize| u as int)
                + seq![idx as int]);
            assert(gidxs =~= idxs@.map_values(|u: usize| u as int) + unrank_from(
                ms,
                remv as nat,
                d as int,
            ));
        }
    }
    proof {
        assert(unrank_from(ms, remv as nat, matrix@.len() as int) =~= Seq::<int>::empty());
        assert(gidxs =~= idxs@.map_values(|u: usize| u as int));
        assert(gidxs.len() == ms.len());
    }
    // the deterministic name
    let mut name: Vec<char> = Vec::new();
    if cases.len() > 0 {
        let head = chars_of("case_");
        extend_chars(&mut name, &head);
        proof {
            assert(ci + 1 <= cases@.len());
        }
        push_dec(&mut name, ci + 1);
        match &cases[ci].description {
            Some(dsc) => {
                name.push('_');
                extend_chars(&mut name, &dsc.text);
            },
            None => (),
        }
        proof {
            assert(cs[ci as int] == cases@[ci as int]@);
            assert(name@ =~= case_segment(ci as int, cs[ci as int]));
        }
    } else if matrix.len() > 0 {
        extend_chars(&mut name, &matrix[0].name.text);
        name.push('_');
        let idx_here = idxs[0];
        let dim_len = matrix[0].values.len();
        proof {
            assert(ms[0] == matrix@[0]@);
            assert(ms[0].values.len() == matrix@[0].values@.len());
            assert(idxs@[0] as int == gidxs[0]);
            assert(idx_here < dim_len);
        }
        push_dec(&mut name, idx_here + 1);
        proof {
            assert(ms[0] == matrix@[0]@);
            assert(name@ =~= matrix_segment(ms[0], gidxs[0]));
        }
    } else {
        extend_chars(&mut name, &base.text);
    }
    let mut d: usize = if cases.len() > 0 {
        0
    } else {
        1
    };
    proof {
        if cases@.len() == 0 && matrix@.len() == 0 {
            assert(matrix_tail(ms, gidxs, 1) =~= Seq::<char>::empty());
            assert(name@ + matrix_tail(ms, gidxs, d as int) =~= inst_name(
                base@,
                cs,
                ms,
                ci as int,
                gidxs,
            ));
        } else {
            assert(name@ + matrix_tail(ms, gidxs, d as int) =~= inst_name(
                base@,
                cs,
                ms,
                ci as int,
                gidxs,
            ));
        }
    }
    while d < matrix.len()
        invariant
            ms == mviews(matrix@),
            forall|j: int| 0 <= j < ms.len() ==> (#[trigger] ms[j]).values.len() >= 1,
            d <= matrix@.len() || d == 1,
            gidxs.len() == ms.len(),
            forall|j: int| 0 <= j < idxs@.len() ==> (#[trigger] idxs@[j]) as int == gidxs[j],
            idxs@.len() == ms.len(),
            forall|j: int| 0 <= j < ms.len() ==> 0 <= #[trigger] gidxs[j] < ms[j].values.len(),
            inst_name(base@, cs, ms, ci as int, gidxs) == name@ + matrix_tail(
                ms,
                gidxs,
                d as int,
            ),
        decreases matrix@.len() - d,
    {
        let ghost nprev = name@;
        let sep = chars_of("::");
        extend_chars(&mut name, &sep);
        extend_chars(&mut name, &matrix[d].name.text);
        name.push('_');
        let idx_here = idxs[d];
        let dim_len = matrix[d].values.len();
        proof {
            assert(ms[d as int] == matrix@[d as int]@);
            assert(idxs@[d as int] as int == gidxs[d as int]);
            assert(ms[d as int].values.len() == matrix@[d as int].values@.len());
            assert(idx_here < dim_len);
        }
        push_dec(&mut name, idx_here + 1);
        d += 1;
        proof {
            assert(ms[d - 1] == matrix@[d - 1]@);
            assert(name@ =~= nprev + "::"@ + matrix_segment(ms[d - 1], gidxs[d - 1]));
            assert(matrix_tail(ms, gidxs, d - 1) == "::"@ + matrix_segment(ms[d - 1], gidxs[d - 1])
                + matrix_tail(ms, gidxs, d as int));
            assert(inst_name(base@, cs, ms, ci as int, gidxs) =~= name@ + matrix_tail(
                ms,
                gidxs,
                d as int,
            ));
        }
    }
    proof {
        assert(matrix_tail(ms, gidxs, matrix@.len() as int) =~= Seq::<char>::empty());
        assert(name@ =~= inst_name(base@, cs, ms, ci as int, gidxs));
    }
    // 1-based matrix indices
    let mut mi: Vec<usize> = Vec::new();
    let mut d: usize = 0;
    while d < idxs.len()
        invariant
            d <= idxs@.len(),
            mi@.len() == d,
            ms == mviews(matrix@),
            idxs@.len() == ms.len(),
            gidxs.len() == ms.len(),
            forall|j: int| 0 <= j < idxs@.len() ==> (#[trigger] idxs@[j]) as int == gidxs[j],
            forall|j: int| 0 <= j < ms.len() ==> 0 <= #[trigger] gidxs[j] < ms[j].values.len(),
            forall|j: int| 0 <= j < d ==> (#[trigger] mi@[j]) as int == gidxs[j] + 1,
        decreases idxs@.len() - d,
    {
        let idx_here = idxs[d];
        let dim_len = matrix[d].values.len();
        proof {
            assert(idxs@[d as int] as int == gidxs[d as int]);
            assert(ms[d as int] == matrix@[d as int]@);
            assert(ms[d as int].values.len() == matrix@[d as int].values@.len());
            assert(idx_here < dim_len);
        }
        mi.push(idx_here + 1);
        d += 1;
    }
    // the complete bindings
    let mut binds: Vec<NamedBinding> = Vec::new();
    if cases.len() > 0 {
        let mut j: usize = 0;
        while j < case_params.len()
            invariant
                cases@.len() > 0,
                ci < cases@.len(),
                cs == cviews(cases@),
                cps == iviews(case_params@),
                forall|c: int|
                    0 <= c < cs.len() ==> (#[trigger] cs[c]).args.len() == cps.len(),
                j <= case_params@.len(),
                binds@.len() == j,
                forall|q: int|
                    0 <= q < j ==> (#[trigger] binds@[q])@ == (NamedBindM {
                        name: cps[q],
                        value: BindValM::Value(cs[ci as int].args[q]),
                    }),
            decreases case_params@.len() - j,
        {
            proof {
                assert(cps[j as int] == case_params@[j as int]@);
                assert(cs[ci as int] == cases@[ci as int]@);
                assert(cs[ci as int].args[j as int] == cases@[ci as int]@.args[j as int]);
            }
            let b = NamedBinding {
                name: case_params[j].duplicate(),
                value: BindingValue::Value(cases[ci].args[j].duplicate()),
            };
            binds.push(b);
            j += 1;
        }
    }
    let ghost ncase_binds = binds@.len();
    let mut d: usize = 0;
    while d < matrix.len()
        invariant
            d <= matrix@.len(),
            ms == mviews(matrix@),
            binds@.len() == ncase_binds + d,
            idxs@.len() == ms.len(),
            gidxs.len() == ms.len(),
            forall|j: int| 0 <= j < idxs@.len() ==> (#[trigger] idxs@[j]) as int == gidxs[j],
            forall|j: int| 0 <= j < ms.len() ==> 0 <= #[trigger] gidxs[j] < ms[j].values.len(),
            ncase_binds == (if cases@.len() == 0 { 0int } else { cps.len() as int }),
            cases@.len() > 0 ==> ci < cases@.len(),
            cs == cviews(cases@),
            forall|q: int|
                0 <= q < ncase_binds ==> (#[trigger] binds@[q])@ == (NamedBindM {
                    name: cps[q],
                    value: BindValM::Value(cs[ci as int].args[q]),
                }),
            forall|q: int|
                ncase_binds <= q < binds@.len() ==> (#[trigger] binds@[q])@ == (NamedBindM {
                    name: ms[q - ncase_binds].name,
                    value: BindValM::Value(ms[q - ncase_binds].values[gidxs[q - ncase_binds]]),
                }),
        decreases matrix@.len() - d,
    {
        proof {
            assert(ms[d as int] == matrix@[d as int]@);
            assert(idxs@[d as int] as int == gidxs[d as int]);
            assert(ms[d as int].values[gidxs[d as int]] == matrix@[d as int]@.values[gidxs[d as int]]);
        }
        let b = NamedBinding {
            name: matrix[d].name.duplicate(),
            value: BindingValue::Value(matrix[d].values[idxs[d]].duplicate()),
        };
        binds.push(b);
        d += 1;
    }
    let mut f: usize = 0;
    let ghost nprev_binds = binds@.len();
    while f < fixed.len()
        invariant
            f <= fixed@.len(),
            fm == bviews(fixed@),
            binds@.len() == nprev_binds + f,
            nprev_binds == ncase_binds + ms.len(),
            ncase_binds == (if cases@.len() == 0 { 0int } else { cps.len() as int }),
            cases@.len() > 0 ==> ci < cases@.len(),
            cs == cviews(cases@),
            gidxs.len() == ms.len(),
            forall|q: int|
                0 <= q < ncase_binds ==> (#[trigger] binds@[q])@ == (NamedBindM {
                    name: cps[q],
                    value: BindValM::Value(cs[ci as int].args[q]),
                }),
            forall|q: int|
                ncase_binds <= q < nprev_binds ==> (#[trigger] binds@[q])@ == (NamedBindM {
                    name: ms[q - ncase_binds].name,
                    value: BindValM::Value(ms[q - ncase_binds].values[gidxs[q - ncase_binds]]),
                }),
            forall|q: int|
                nprev_binds <= q < binds@.len() ==> (#[trigger] binds@[q])@ == fm[q - nprev_binds],
        decreases fixed@.len() - f,
    {
        proof {
            assert(fm[f as int] == fixed@[f as int]@);
        }
        binds.push(fixed[f].duplicate());
        f += 1;
    }
    let r = Instantiation {
        name,
        case_index: if cases.len() == 0 {
            0
        } else {
            ci + 1
        },
        matrix_indices: mi,
        bindings: binds,
    };
    proof {
        let want = spec_instantiation(base@, cps, cs, ms, fm, k as nat);
        assert(r@.matrix_indices =~= want.matrix_indices);
        assert(r@.bindings =~~= want.bindings);
        assert(r@ =~~= want);
    }
    r
}

/// Expand the validated plan: exactly `N' × M1 × … × Mm` instantiations,
/// in order — cases outermost, the last-declared matrix list varying
/// fastest — each one exactly as `spec_instantiation` says.
pub fn expand(
    base: &IdentS,
    case_params: &Vec<IdentS>,
    cases: &Vec<Case>,
    matrix: &Vec<MatrixDecl>,
    fixed: &Vec<NamedBinding>,
) -> (r: Vec<Instantiation>)
    requires
        forall|j: int| 0 <= j < mviews(matrix@).len() ==> (#[trigger] mviews(matrix@)[j]).values.len() >= 1,
        forall|c: int|
            0 <= c < cviews(cases@).len() ==> (#[trigger] cviews(cases@)[c]).args.len()
                == iviews(case_params@).len(),
        total_count(cases@.len(), mviews(matrix@)) <= usize::MAX,
    ensures
        r@.len() == total_count(cases@.len(), mviews(matrix@)),
        forall|k: int|
            0 <= k < r@.len() ==> (#[trigger] r@[k])@ == spec_instantiation(
                base@,
                iviews(case_params@),
                cviews(cases@),
                mviews(matrix@),
                bviews(fixed@),
                k as nat,
            ),
{
    let ghost ms = mviews(matrix@);
    proof {
        lemma_prod_from_pos(ms, 0);
        assert(effective_cases(cases@.len()) >= 1);
        assert(prod_from(ms, 0) <= effective_cases(cases@.len()) * prod_from(ms, 0))
            by (nonlinear_arith)
            requires
                effective_cases(cases@.len()) >= 1,
        ;
    }
    let pm = prod_from_exec(matrix, 0);
    let total: usize = if cases.len() == 0 {
        pm
    } else {
        proof {
            assert((cases@.len() as nat) * (pm as nat) == total_count(cases@.len(), ms));
        }
        cases.len() * pm
    };
    proof {
        assert(total as nat == total_count(cases@.len(), ms));
    }
    let mut out: Vec<Instantiation> = Vec::new();
    let mut k: usize = 0;
    while k < total
        invariant
            k <= total,
            total as nat == total_count(cases@.len(), mviews(matrix@)),
            pm as nat == prod_from(mviews(matrix@), 0),
            forall|j: int|
                0 <= j < mviews(matrix@).len() ==> (#[trigger] mviews(matrix@)[j]).values.len()
                    >= 1,
            forall|c: int|
                0 <= c < cviews(cases@).len() ==> (#[trigger] cviews(cases@)[c]).args.len()
                    == iviews(case_params@).len(),
            out@.len() == k,
            forall|j: int|
                0 <= j < k ==> (#[trigger] out@[j])@ == spec_instantiation(
                    base@,
                    iviews(case_params@),
                    cviews(cases@),
                    mviews(matrix@),
                    bviews(fixed@),
                    j as nat,
                ),
        decreases total - k,
    {
        let inst = build_one(base, case_params, cases, matrix, fixed, k, pm);
        out.push(inst);
        k += 1;
    }
    out
}

} // verus!
