//! The signature matcher and the validation of case sets and matrix
//! lists.
//!
//! Every declared binding — a fixture reference, a default value, a
//! case-bound or matrix-bound parameter, or one injected through a
//! signature attribute — is looked up by name in the parameter list. A
//! name that no bindable parameter carries earns a missing-argument
//! diagnostic; a name already bound by an earlier declaration earns a
//! duplicate-argument diagnostic at the second occurrence. Receiver
//! parameters are excluded from binding. Validation never stops at the
//! first failure: the diagnostics of every declaration, every case tuple
//! and every matrix list are collected into one report, and a binding
//! plan comes back only when that report is empty.

use vstd::prelude::*;
use crate::diag::{Diagnostic, DiagKind, DiagM, Span};
use crate::model::{ExprM, ExprSpan, IdentM, IdentS};
use crate::outside::chars_of;
use crate::sig::{ParamDesc, ParamM};
use crate::token::{chars_eq, extend_chars};

verus! {

/// How a declaration wants to bind its parameter.
#[derive(Clone, Copy, Debug, PartialEq, Eq, Structural)]
pub enum Category {
    Fixture,
    DefaultValue,
    Case,
    Matrix,
    Injected,
}

/// One binding declaration, in source order.
#[derive(Debug)]
pub struct BindingDecl {
    pub name: IdentS,
    pub category: Category,
    pub span: Span,
}

#[verifier::ext_equal]
pub struct DeclM {
    pub name: IdentM,
    pub category: Category,
    pub span: Span,
}

impl View for BindingDecl {
    type V = DeclM;

    open spec fn view(&self) -> DeclM {
        DeclM { name: self.name@, category: self.category, span: self.span }
    }
}

/// A validated plan: each declaration bound to a distinct, existing,
/// bindable parameter.
#[derive(Debug)]
pub struct BindingPlan {
    pub entries: Vec<BindingDecl>,
}

/// One concrete case tuple, with an optional human-readable description.
#[derive(Debug)]
pub struct Case {
    pub args: Vec<ExprSpan>,
    pub description: Option<IdentS>,
    pub span: Span,
}

#[verifier::ext_equal]
pub struct CaseM {
    pub args: Seq<ExprM>,
    pub description: Option<IdentM>,
    pub span: Span,
}

impl View for Case {
    type V = CaseM;

    open spec fn view(&self) -> CaseM {
        CaseM {
            args: self.args@.map_values(|e: ExprSpan| e@),
            description: match &self.description {
                Some(d) => Some(d@),
                None => None,
            },
            span: self.span,
        }
    }
}

/// One matrix list: the values a parameter runs through.
#[derive(Debug)]
pub struct MatrixDecl {
    pub name: IdentS,
    pub values: Vec<ExprSpan>,
    pub span: Span,
}

#[verifier::ext_equal]
pub struct MatrixM {
    pub name: IdentM,
    pub values: Seq<ExprM>,
    pub span: Span,
}

impl View for MatrixDecl {
    type V = MatrixM;

    open spec fn view(&self) -> MatrixM {
        MatrixM {
            name: self.name@,
            values: self.values@.map_values(|e: ExprSpan| e@),
            span: self.span,
        }
    }
}

// -------------------------------------------------------------- name lookup

/// Whether some bindable (non-receiver) parameter carries this name.
pub open spec fn param_named(params: Seq<ParamM>, n: Seq<char>) -> bool {
    exists|k: int| 0 <= k < params.len() && !params[k].receiver && params[k].name.text == n
}

/// Whether an earlier declaration binds the same name.
pub open spec fn bound_before(decls: Seq<DeclM>, i: int) -> bool {
    exists|j: int| 0 <= j < i && decls[j].name.text == decls[i].name.text
}

pub open spec fn missing_msg(n: Seq<char>) -> Seq<char> {
    "missed argument: "@ + n
}

pub open spec fn duplicate_msg(n: Seq<char>) -> Seq<char> {
    "duplicate argument: "@ + n
}

/// The report one declaration earns: nothing, or one missing-argument, or
/// one duplicate-argument diagnostic at its own position.
pub open spec fn decl_diag(params: Seq<ParamM>, decls: Seq<DeclM>, i: int) -> Seq<DiagM> {
    if !param_named(params, decls[i].name.text) {
        seq![
            DiagM {
                kind: DiagKind::MissingArgument,
                message: missing_msg(decls[i].name.text),
                span: decls[i].span,
            },
        ]
    } else if bound_before(decls, i) {
        seq![
            DiagM {
                kind: DiagKind::DuplicateArgument,
                message: duplicate_msg(decls[i].name.text),
                span: decls[i].span,
            },
        ]
    } else {
        Seq::empty()
    }
}

/// The reports of the first `n` declarations, in order.
pub open spec fn decl_diags_upto(params: Seq<ParamM>, decls: Seq<DeclM>, n: int) -> Seq<DiagM>
    decreases n,
{
    if n <= 0 {
        Seq::empty()
    } else {
        decl_diags_upto(params, decls, n - 1) + decl_diag(params, decls, n - 1)
    }
}

/// The whole matching report.
pub open spec fn decl_diags(params: Seq<ParamM>, decls: Seq<DeclM>) -> Seq<DiagM> {
    decl_diags_upto(params, decls, decls.len() as int)
}

fn exec_param_named(params: &Vec<ParamDesc>, n: &Vec<char>) -> (r: bool)
    ensures
        r == param_named(params@.map_values(|p: ParamDesc| p@), n@),
{
    let ghost pm = params@.map_values(|p: ParamDesc| p@);
    let mut k: usize = 0;
    while k < params.len()
        invariant
            k <= params@.len(),
            pm == params@.map_values(|p: ParamDesc| p@),
            forall|j: int| 0 <= j < k ==> !(!pm[j].receiver && pm[j].name.text == n@),
        decreases params@.len() - k,
    {
        if !params[k].receiver && chars_eq(&params[k].name.text, n) {
            proof {
                assert(pm[k as int] == params@[k as int]@);
                assert(!pm[k as int].receiver && pm[k as int].name.text == n@);
            }
            return true;
        }
        k += 1;
    }
    false
}

fn exec_bound_before(decls: &Vec<BindingDecl>, i: usize) -> (r: bool)
    requires
        i < decls@.len(),
    ensures
        r == bound_before(decls@.map_values(|d: BindingDecl| d@), i as int),
{
    let ghost dm = decls@.map_values(|d: BindingDecl| d@);
    let mut j: usize = 0;
    while j < i
        invariant
            j <= i < decls@.len(),
            dm == decls@.map_values(|d: BindingDecl| d@),
            forall|q: int| 0 <= q < j ==> dm[q].name.text != dm[i as int].name.text,
        decreases i - j,
    {
        if chars_eq(&decls[j].name.text, &decls[i].name.text) {
            proof {
                assert(dm[j as int] == decls@[j as int]@);
                assert(dm[i as int] == decls@[i as int]@);
                assert(dm[j as int].name.text == dm[i as int].name.text);
            }
            return true;
        }
        j += 1;
    }
    false
}

fn named_diag(kind: DiagKind, prefix: &str, name: &IdentS, span: Span) -> (d: Diagnostic)
    ensures
        d@ == (DiagM { kind, message: prefix@ + name@.text, span }),
{
    let mut message = chars_of(prefix);
    extend_chars(&mut message, &name.text);
    Diagnostic::new(kind, message, span)
}

/// Cross-reference the declarations against the parameter list. All
/// diagnostics are collected before returning: either every declaration
/// binds a distinct, existing parameter and the plan is the declaration
/// list itself, or the complete report comes back.
pub fn match_signature(params: &Vec<ParamDesc>, decls: Vec<BindingDecl>) -> (r: Result<
    BindingPlan,
    Vec<Diagnostic>,
>)
    ensures
        ({
            let ds = decl_diags(
                params@.map_values(|p: ParamDesc| p@),
                decls@.map_values(|d: BindingDecl| d@),
            );
            match r {
                Ok(plan) => ds.len() == 0 && plan.entries@ == decls@,
                Err(es) => es@.map_values(|d: Diagnostic| d@) == ds && ds.len() > 0,
            }
        }),
{
    let ghost pm = params@.map_values(|p: ParamDesc| p@);
    let ghost dm = decls@.map_values(|d: BindingDecl| d@);
    let mut errs: Vec<Diagnostic> = Vec::new();
    proof {
        assert(errs@.map_values(|d: Diagnostic| d@) =~~= decl_diags_upto(pm, dm, 0));
    }
    let mut i: usize = 0;
    while i < decls.len()
        invariant
            i <= decls@.len(),
            pm == params@.map_values(|p: ParamDesc| p@),
            dm == decls@.map_values(|d: BindingDecl| d@),
            errs@.map_values(|d: Diagnostic| d@) == decl_diags_upto(pm, dm, i as int),
        decreases decls@.len() - i,
    {
        let ghost eprev = errs@;
        if !exec_param_named(params, &decls[i].name.text) {
            let d = named_diag(
                DiagKind::MissingArgument,
                "missed argument: ",
                &decls[i].name,
                decls[i].span,
            );
            errs.push(d);
        } else if exec_bound_before(&decls, i) {
            let d = named_diag(
                DiagKind::DuplicateArgument,
                "duplicate argument: ",
                &decls[i].name,
                decls[i].span,
            );
            errs.push(d);
        }
        i += 1;
        proof {
            assert(dm[i - 1].name.text == decls@[i - 1].name.text@);
            assert(dm[i - 1].span == decls@[i - 1].span);
            assert(errs@.map_values(|d: Diagnostic| d@) =~~= decl_diags_upto(pm, dm, i as int));
        }
    }
    if errs.len() == 0 {
        Ok(BindingPlan { entries: decls })
    } else {
        Err(errs)
    }
}

// ----------------------------------------------- case and matrix validation

pub open spec fn no_cases_msg() -> Seq<char> {
    "No cases for this argument."@
}

pub open spec fn wrong_case_msg() -> Seq<char> {
    "Wrong case signature: should match the given parameters list."@
}

pub open spec fn empty_values_msg() -> Seq<char> {
    "Values list can not be empty."@
}

pub open spec fn no_cases_diag(p: IdentM) -> DiagM {
    DiagM { kind: DiagKind::NoCasesForArgument, message: no_cases_msg(), span: p.span }
}

pub open spec fn wrong_case_diag(c: CaseM) -> DiagM {
    DiagM { kind: DiagKind::WrongCaseSignature, message: wrong_case_msg(), span: c.span }
}

pub open spec fn empty_values_diag(m: MatrixM) -> DiagM {
    DiagM { kind: DiagKind::EmptyValuesList, message: empty_values_msg(), span: m.span }
}

/// The arity report of one case tuple: its length must equal the number
/// of case-bound parameters.
pub open spec fn case_diag(nparams: int, cs: Seq<CaseM>, i: int) -> Seq<DiagM> {
    if cs[i].args.len() != nparams {
        seq![wrong_case_diag(cs[i])]
    } else {
        Seq::empty()
    }
}

pub open spec fn case_diags_upto(nparams: int, cs: Seq<CaseM>, n: int) -> Seq<DiagM>
    decreases n,
{
    if n <= 0 {
        Seq::empty()
    } else {
        case_diags_upto(nparams, cs, n - 1) + case_diag(nparams, cs, n - 1)
    }
}

/// The no-cases report: one diagnostic per case-bound parameter when the
/// case set is empty.
pub open spec fn no_cases_diags_upto(cps: Seq<IdentM>, n: int) -> Seq<DiagM>
    decreases n,
{
    if n <= 0 {
        Seq::empty()
    } else {
        no_cases_diags_upto(cps, n - 1) + seq![no_cases_diag(cps[n - 1])]
    }
}

/// The whole case-set report: every tuple's arity checked against the
/// case-bound parameters; an empty set reported once per such parameter.
pub open spec fn case_set_diags(cps: Seq<IdentM>, cs: Seq<CaseM>) -> Seq<DiagM> {
    if cps.len() > 0 && cs.len() == 0 {
        no_cases_diags_upto(cps, cps.len() as int)
    } else {
        case_diags_upto(cps.len() as int, cs, cs.len() as int)
    }
}

/// The empty-list report of one matrix declaration.
pub open spec fn matrix_diag(ms: Seq<MatrixM>, i: int) -> Seq<DiagM> {
    if ms[i].values.len() == 0 {
        seq![empty_values_diag(ms[i])]
    } else {
        Seq::empty()
    }
}

pub open spec fn matrix_diags_upto(ms: Seq<MatrixM>, n: int) -> Seq<DiagM>
    decreases n,
{
    if n <= 0 {
        Seq::empty()
    } else {
        matrix_diags_upto(ms, n - 1) + matrix_diag(ms, n - 1)
    }
}

pub open spec fn matrix_diags(ms: Seq<MatrixM>) -> Seq<DiagM> {
    matrix_diags_upto(ms, ms.len() as int)
}

/// Validate a case set against its case-bound parameters.
pub fn validate_case_set(case_params: &Vec<IdentS>, cases: &Vec<Case>) -> (r: Vec<Diagnostic>)
    ensures
        r@.map_values(|d: Diagnostic| d@) == case_set_diags(
            case_params@.map_values(|p: IdentS| p@),
            cases@.map_values(|c: Case| c@),
        ),
{
    let ghost cps = case_params@.map_values(|p: IdentS| p@);
    let ghost cs = cases@.map_values(|c: Case| c@);
    let mut errs: Vec<Diagnostic> = Vec::new();
    if case_params.len() > 0 && cases.len() == 0 {
        proof {
            assert(errs@.map_values(|d: Diagnostic| d@) =~~= no_cases_diags_upto(cps, 0));
        }
        let mut i: usize = 0;
        while i < case_params.len()
            invariant
                i <= case_params@.len(),
                cps == case_params@.map_values(|p: IdentS| p@),
                errs@.map_values(|d: Diagnostic| d@) == no_cases_diags_upto(cps, i as int),
            decreases case_params@.len() - i,
        {
            let d = Diagnostic::new(
                DiagKind::NoCasesForArgument,
                chars_of("No cases for this argument."),
                case_params[i].span,
            );
            errs.push(d);
            i += 1;
            proof {
                assert(errs@.map_values(|d: Diagnostic| d@) =~~= no_cases_diags_upto(
                    cps,
                    i as int,
                ));
            }
        }
        proof {
            assert(errs@.map_values(|d: Diagnostic| d@) =~~= case_set_diags(cps, cs));
        }
        errs
    } else {
        proof {
            assert(errs@.map_values(|d: Diagnostic| d@) =~~= case_diags_upto(
                cps.len() as int,
                cs,
                0,
            ));
        }
        let mut i: usize = 0;
        while i < cases.len()
            invariant
                i <= cases@.len(),
                cps == case_params@.map_values(|p: IdentS| p@),
                cs == cases@.map_values(|c: Case| c@),
                errs@.map_values(|d: Diagnostic| d@) == case_diags_upto(
                    cps.len() as int,
                    cs,
                    i as int,
                ),
            decreases cases@.len() - i,
        {
            if cases[i].args.len() != case_params.len() {
                let d = Diagnostic::new(
                    DiagKind::WrongCaseSignature,
                    chars_of("Wrong case signature: should match the given parameters list."),
                    cases[i].span,
                );
                errs.push(d);
            }
            i += 1;
            proof {
                assert(cs[i - 1].args.len() == cases@[i - 1]@.args.len());
                assert(errs@.map_values(|d: Diagnostic| d@) =~~= case_diags_upto(
                    cps.len() as int,
                    cs,
                    i as int,
                ));
            }
        }
        proof {
            assert(errs@.map_values(|d: Diagnostic| d@) =~~= case_set_diags(cps, cs));
        }
        errs
    }
}

/// Validate the matrix lists: a list with no values is a hard error.
pub fn validate_matrix(matrix: &Vec<MatrixDecl>) -> (r: Vec<Diagnostic>)
    ensures
        r@.map_values(|d: Diagnostic| d@) == matrix_diags(
            matrix@.map_values(|m: MatrixDecl| m@),
        ),
{
    let ghost ms = matrix@.map_values(|m: MatrixDecl| m@);
    let mut errs: Vec<Diagnostic> = Vec::new();
    proof {
        assert(errs@.map_values(|d: Diagnostic| d@) =~~= matrix_diags_upto(ms, 0));
    }
    let mut i: usize = 0;
    while i < matrix.len()
        invariant
            i <= matrix@.len(),
            ms == matrix@.map_values(|m: MatrixDecl| m@),
            errs@.map_values(|d: Diagnostic| d@) == matrix_diags_upto(ms, i as int),
        decreases matrix@.len() - i,
    {
        if matrix[i].values.len() == 0 {
            let d = Diagnostic::new(
                DiagKind::EmptyValuesList,
                chars_of("Values list can not be empty."),
                matrix[i].span,
            );
            errs.push(d);
        }
        i += 1;
        proof {
            assert(ms[i - 1].values.len() == matrix@[i - 1]@.values.len());
            assert(errs@.map_values(|d: Diagnostic| d@) =~~= matrix_diags_upto(ms, i as int));
        }
    }
    proof {
        assert(errs@.map_values(|d: Diagnostic| d@) =~~= matrix_diags(ms));
    }
    errs
}

/// The whole validation report, in pass order: matching first, then the
/// case set, then the matrix lists. Nothing stops at the first failure.
pub open spec fn validation_diags(
    params: Seq<ParamM>,
    decls: Seq<DeclM>,
    cps: Seq<IdentM>,
    cs: Seq<CaseM>,
    ms: Seq<MatrixM>,
) -> Seq<DiagM> {
    decl_diags(params, decls) + case_set_diags(cps, cs) + matrix_diags(ms)
}

/// Match and validate everything, aggregating every diagnostic of every
/// pass into one report.
pub fn validate_all(
    params: &Vec<ParamDesc>,
    decls: Vec<BindingDecl>,
    case_params: &Vec<IdentS>,
    cases: &Vec<Case>,
    matrix: &Vec<MatrixDecl>,
) -> (r: Result<BindingPlan, Vec<Diagnostic>>)
    ensures
        ({
            let ds = validation_diags(
                params@.map_values(|p: ParamDesc| p@),
                decls@.map_values(|d: BindingDecl| d@),
                case_params@.map_values(|p: IdentS| p@),
                cases@.map_values(|c: Case| c@),
                matrix@.map_values(|m: MatrixDecl| m@),
            );
            match r {
                Ok(plan) => ds.len() == 0 && plan.entries@ == decls@,
                Err(es) => es@.map_values(|d: Diagnostic| d@) == ds && ds.len() > 0,
            }
        }),
{
    let mut errs: Vec<Diagnostic> = Vec::new();
    let matched = match_signature(params, decls);
    let mut case_errs = validate_case_set(case_params, cases);
    let mut matrix_errs = validate_matrix(matrix);
    match matched {
        Ok(plan) => {
            if case_errs.len() == 0 && matrix_errs.len() == 0 {
                proof {
                    assert(validation_diags(
                        params@.map_values(|p: ParamDesc| p@),
                        plan.entries@.map_values(|d: BindingDecl| d@),
                        case_params@.map_values(|p: IdentS| p@),
                        cases@.map_values(|c: Case| c@),
                        matrix@.map_values(|m: MatrixDecl| m@),
                    ).len() == 0);
                }
                Ok(plan)
            } else {
                let ghost cv = case_errs@;
                let ghost mv = matrix_errs@;
                errs.append(&mut case_errs);
                errs.append(&mut matrix_errs);
                proof {
                    assert(errs@.map_values(|d: Diagnostic| d@) =~~= cv.map_values(
                        |d: Diagnostic| d@,
                    ) + mv.map_values(|d: Diagnostic| d@));
                    assert(errs@.map_values(|d: Diagnostic| d@) =~~= validation_diags(
                        params@.map_values(|p: ParamDesc| p@),
                        plan.entries@.map_values(|d: BindingDecl| d@),
                        case_params@.map_values(|p: IdentS| p@),
                        cases@.map_values(|c: Case| c@),
                        matrix@.map_values(|m: MatrixDecl| m@),
                    ));
                }
                Err(errs)
            }
        },
        Err(mut match_errs) => {
            let ghost av = match_errs@;
            let ghost cv = case_errs@;
            let ghost mv = matrix_errs@;
            errs.append(&mut match_errs);
            errs.append(&mut case_errs);
            errs.append(&mut matrix_errs);
            proof {
                assert(errs@.map_values(|d: Diagnostic| d@) =~~= av.map_values(
                    |d: Diagnostic| d@,
                ) + cv.map_values(|d: Diagnostic| d@) + mv.map_values(|d: Diagnostic| d@));
            }
            Err(errs)
        },
    }
}

} // verus!
