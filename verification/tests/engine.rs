//! The matcher, the expansion engine and the future rewrite, end to end.

use std::collections::HashSet;

use rstest_core::diag::{DiagKind, Span};
use rstest_core::expand::{expand, BindingValue, NamedBinding};
use rstest_core::future::ReplaceFutureAttribute;
use rstest_core::matcher::{
    match_signature, validate_all, validate_case_set, validate_matrix, BindingDecl, Case, Category,
    MatrixDecl,
};
use rstest_core::model::{ExprSpan, FixtureModifiers, IdentS};
use rstest_core::resolver::{resolve_fixture, RetOverride};
use rstest_core::sig::{AttrPayload, FnAttribute, FunctionDesc, GenericParam, ParamDesc, TypeDesc};

fn chars(s: &str) -> Vec<char> {
    s.chars().collect()
}

fn text(v: &Vec<char>) -> String {
    v.iter().collect()
}

fn sp(k: usize) -> Span {
    Span { lo: k, hi: k + 1 }
}

fn ident(s: &str, k: usize) -> IdentS {
    IdentS { text: chars(s), span: sp(k) }
}

fn expr(s: &str, k: usize) -> ExprSpan {
    ExprSpan { text: chars(s), span: sp(k) }
}

fn param(name: &str, k: usize) -> ParamDesc {
    ParamDesc {
        receiver: false,
        name: ident(name, k),
        ty: TypeDesc::Plain { text: chars("u32") },
        deferred: false,
        attrs: vec![],
        span: sp(k),
    }
}

fn decl(name: &str, category: Category, k: usize) -> BindingDecl {
    BindingDecl { name: ident(name, k), category, span: sp(k) }
}

fn case_of(args: &[&str], description: Option<&str>, k: usize) -> Case {
    Case {
        args: args.iter().map(|a| expr(a, k)).collect(),
        description: description.map(|d| ident(d, k)),
        span: sp(k),
    }
}

fn matrix_of(name: &str, values: &[&str], k: usize) -> MatrixDecl {
    MatrixDecl { name: ident(name, k), values: values.iter().map(|v| expr(v, k)).collect(), span: sp(k) }
}

// --------------------------------------------------------------- the matcher

#[test]
fn unknown_name_earns_one_missing_argument_diagnostic() {
    let params = vec![param("a", 1), param("b", 2)];
    let decls = vec![
        decl("a", Category::Fixture, 10),
        decl("x", Category::DefaultValue, 11),
        decl("b", Category::Matrix, 12),
    ];

    let errors = match_signature(&params, decls).unwrap_err();

    assert_eq!(errors.len(), 1);
    assert_eq!(errors[0].kind, DiagKind::MissingArgument);
    assert!(text(&errors[0].message).contains("x"));
    assert_eq!(errors[0].span, sp(11));
}

#[test]
fn duplicate_binding_earns_one_diagnostic_at_the_second_occurrence() {
    let params = vec![param("a", 1), param("b", 2)];
    // the same parameter bound by two different categories
    let decls = vec![
        decl("a", Category::Fixture, 10),
        decl("b", Category::Case, 11),
        decl("a", Category::Matrix, 12),
    ];

    let errors = match_signature(&params, decls).unwrap_err();

    assert_eq!(errors.len(), 1);
    assert_eq!(errors[0].kind, DiagKind::DuplicateArgument);
    assert_eq!(errors[0].span, sp(12));
}

#[test]
fn receivers_cannot_be_bound() {
    let mut receiver = param("own", 1);
    receiver.receiver = true;
    let params = vec![receiver, param("a", 2)];
    let decls = vec![decl("own", Category::Fixture, 10)];

    let errors = match_signature(&params, decls).unwrap_err();

    assert_eq!(errors.len(), 1);
    assert_eq!(errors[0].kind, DiagKind::MissingArgument);
}

#[test]
fn a_valid_plan_keeps_the_declarations() {
    let params = vec![param("a", 1), param("b", 2)];
    let decls = vec![decl("a", Category::Case, 10), decl("b", Category::Matrix, 11)];

    let plan = match_signature(&params, decls).unwrap();

    assert_eq!(plan.entries.len(), 2);
    assert_eq!(text(&plan.entries[0].name.text), "a");
    assert_eq!(plan.entries[1].category, Category::Matrix);
}

#[test]
fn wrong_case_arity_is_reported_at_that_tuple_alone() {
    let cps = vec![ident("a", 1), ident("b", 2)];
    let cases = vec![
        case_of(&["1", "2"], None, 10),
        case_of(&["1"], None, 11),
        case_of(&["3", "4"], None, 12),
    ];

    let errors = validate_case_set(&cps, &cases);

    assert_eq!(errors.len(), 1);
    assert_eq!(errors[0].kind, DiagKind::WrongCaseSignature);
    assert_eq!(errors[0].span, sp(11));
    assert_eq!(text(&errors[0].message), "Wrong case signature: should match the given parameters list.");
}

#[test]
fn empty_case_set_is_reported_once_per_case_bound_parameter() {
    let cps = vec![ident("a", 1), ident("b", 2), ident("c", 3)];
    let cases: Vec<Case> = vec![];

    let errors = validate_case_set(&cps, &cases);

    assert_eq!(errors.len(), 3);
    for e in &errors {
        assert_eq!(e.kind, DiagKind::NoCasesForArgument);
        assert_eq!(text(&e.message), "No cases for this argument.");
    }
}

#[test]
fn empty_values_list_is_a_hard_error() {
    let matrix = vec![matrix_of("a", &["1"], 10), matrix_of("b", &[], 11)];

    let errors = validate_matrix(&matrix);

    assert_eq!(errors.len(), 1);
    assert_eq!(errors[0].kind, DiagKind::EmptyValuesList);
    assert_eq!(errors[0].span, sp(11));
}

#[test]
fn validation_aggregates_every_failure_of_every_pass() {
    let params = vec![param("a", 1)];
    let decls = vec![decl("x", Category::Fixture, 10), decl("a", Category::Case, 11)];
    let cps = vec![ident("a", 1)];
    let cases: Vec<Case> = vec![];
    let matrix = vec![matrix_of("m", &[], 12)];

    let errors = validate_all(&params, decls, &cps, &cases, &matrix).unwrap_err();

    // one missing argument, one empty case set, one empty values list
    assert_eq!(errors.len(), 3);
    assert_eq!(errors[0].kind, DiagKind::MissingArgument);
    assert_eq!(errors[1].kind, DiagKind::NoCasesForArgument);
    assert_eq!(errors[2].kind, DiagKind::EmptyValuesList);
}

// ------------------------------------------------------------ the expansion

fn binding_text(b: &NamedBinding) -> (String, String) {
    match &b.value {
        BindingValue::Value(e) => (text(&b.name.text), text(&e.text)),
        BindingValue::Call(c) => (text(&b.name.text), format!("call {}", text(&c.name.text))),
    }
}

#[test]
fn cases_and_matrix_expand_in_declaration_order() {
    // two cases on `a`, one matrix list on `b`
    let base = ident("test", 0);
    let cps = vec![ident("a", 1)];
    let cases = vec![case_of(&["1"], None, 10), case_of(&["2"], None, 11)];
    let matrix = vec![matrix_of("b", &["10", "20"], 12)];
    let fixed: Vec<NamedBinding> = vec![];

    let out = expand(&base, &cps, &cases, &matrix, &fixed);

    assert_eq!(out.len(), 4);
    let names: Vec<String> = out.iter().map(|i| text(&i.name)).collect();
    assert_eq!(names, vec!["case_1::b_1", "case_1::b_2", "case_2::b_1", "case_2::b_2"]);
    let bindings: Vec<Vec<(String, String)>> =
        out.iter().map(|i| i.bindings.iter().map(binding_text).collect()).collect();
    assert_eq!(
        bindings,
        vec![
            vec![("a".to_string(), "1".to_string()), ("b".to_string(), "10".to_string())],
            vec![("a".to_string(), "1".to_string()), ("b".to_string(), "20".to_string())],
            vec![("a".to_string(), "2".to_string()), ("b".to_string(), "10".to_string())],
            vec![("a".to_string(), "2".to_string()), ("b".to_string(), "20".to_string())],
        ],
    );
}

#[test]
fn expansion_count_is_the_product_and_names_are_distinct() {
    let base = ident("test", 0);
    let cps = vec![ident("a", 1), ident("b", 2)];
    let cases = vec![
        case_of(&["1", "2"], None, 10),
        case_of(&["3", "4"], Some("second"), 11),
    ];
    let matrix = vec![
        matrix_of("expected", &["e1", "e2", "e3"], 12),
        matrix_of("input", &["i1", "i2"], 13),
    ];
    let fixed: Vec<NamedBinding> = vec![];

    let out = expand(&base, &cps, &cases, &matrix, &fixed);

    assert_eq!(out.len(), 2 * 3 * 2);
    let names: HashSet<String> = out.iter().map(|i| text(&i.name)).collect();
    assert_eq!(names.len(), out.len());
    assert!(names.contains("case_1::expected_1::input_1"));
    assert!(names.contains("case_2_second::expected_3::input_2"));
    // the last-declared matrix list varies fastest
    assert_eq!(text(&out[0].name), "case_1::expected_1::input_1");
    assert_eq!(text(&out[1].name), "case_1::expected_1::input_2");
    assert_eq!(text(&out[2].name), "case_1::expected_2::input_1");
}

#[test]
fn matrix_only_names_have_no_case_segment() {
    let base = ident("strlen_test", 0);
    let cps: Vec<IdentS> = vec![];
    let cases: Vec<Case> = vec![];
    let matrix = vec![
        matrix_of("expected", &["4", "2"], 12),
        matrix_of("input", &["a", "b"], 13),
    ];
    let fixed: Vec<NamedBinding> = vec![];

    let out = expand(&base, &cps, &cases, &matrix, &fixed);

    let names: Vec<String> = out.iter().map(|i| text(&i.name)).collect();
    assert_eq!(
        names,
        vec![
            "expected_1::input_1",
            "expected_1::input_2",
            "expected_2::input_1",
            "expected_2::input_2",
        ],
    );
}

#[test]
fn the_bare_signature_expands_to_one_instantiation() {
    let base = ident("simple", 0);
    let cps: Vec<IdentS> = vec![];
    let cases: Vec<Case> = vec![];
    let matrix: Vec<MatrixDecl> = vec![];
    let fixed = vec![
        NamedBinding { name: ident("f", 1), value: BindingValue::Value(expr("42", 10)) },
    ];

    let out = expand(&base, &cps, &cases, &matrix, &fixed);

    assert_eq!(out.len(), 1);
    assert_eq!(text(&out[0].name), "simple");
    assert_eq!(out[0].case_index, 0);
    assert_eq!(out[0].bindings.len(), 1);
    assert_eq!(binding_text(&out[0].bindings[0]), ("f".to_string(), "42".to_string()));
}

// -------------------------------------------------------- the fixture calls

#[test]
fn resolve_fixture_prefers_the_full_override() {
    let mut modifiers = FixtureModifiers {
        inner: rstest_core::model::Attributes { attributes: vec![] },
    };
    modifiers.set_default_return_type(expr("u32", 10));
    modifiers.set_partial_return_type(1, expr("i64", 11));

    let call = resolve_fixture(&ident("fix", 1), vec![expr("42", 12)], &modifiers, 1);

    match &call.ret {
        RetOverride::Full(t) => assert_eq!(text(&t.text), "u32"),
        _ => panic!("expected the full override"),
    }
    assert_eq!(call.args.len(), 1);
}

#[test]
fn resolve_fixture_falls_back_to_the_partial_then_natural() {
    let mut modifiers = FixtureModifiers {
        inner: rstest_core::model::Attributes { attributes: vec![] },
    };
    modifiers.set_partial_return_type(2, expr("i64", 11));

    let call = resolve_fixture(&ident("fix", 1), vec![], &modifiers, 2);
    match &call.ret {
        RetOverride::Partial(pos, t) => {
            assert_eq!(*pos, 2);
            assert_eq!(text(&t.text), "i64");
        }
        _ => panic!("expected the partial override"),
    }

    let other = resolve_fixture(&ident("fix", 1), vec![], &modifiers, 1);
    match &other.ret {
        RetOverride::Natural => (),
        _ => panic!("expected the natural return type"),
    }
}

// ------------------------------------------------------- the future rewrite

fn future_attr(k: usize) -> FnAttribute {
    FnAttribute { name: ident("future", k), payload: AttrPayload::Empty, span: sp(k) }
}

fn future_signature(params: Vec<ParamDesc>, generics: Vec<GenericParam>) -> FunctionDesc {
    FunctionDesc { name: ident("f", 0), attrs: vec![], generics, params, span: sp(0) }
}

#[test]
fn reference_without_lifetime_gets_a_fresh_one_first_in_the_generics() {
    let mut item = future_signature(
        vec![ParamDesc {
            receiver: false,
            name: ident("ident_name", 1),
            ty: TypeDesc::Reference { lifetime: None, is_mut: false, elem: chars("u32") },
            deferred: false,
            attrs: vec![future_attr(10)],
            span: sp(1),
        }],
        vec![GenericParam::TypeParam { text: chars("S: AsRef<str>") }],
    );

    ReplaceFutureAttribute::replace(&mut item).unwrap();

    let p = &item.params[0];
    assert!(p.deferred);
    match &p.ty {
        TypeDesc::Reference { lifetime: Some(l), .. } => assert_eq!(text(l), "_ident_name"),
        _ => panic!("expected a reference with the fresh lifetime"),
    }
    assert_eq!(item.generics.len(), 2);
    match &item.generics[0] {
        GenericParam::Lifetime { name } => assert_eq!(text(name), "_ident_name"),
        _ => panic!("the fresh lifetime must come first"),
    }
    match &item.generics[1] {
        GenericParam::TypeParam { text: t } => assert_eq!(text(t), "S: AsRef<str>"),
        _ => panic!("the declared generics must keep their order"),
    }
}

#[test]
fn untagged_parameters_are_untouched() {
    let mut item = future_signature(vec![param("a", 1), param("b", 2)], vec![]);

    ReplaceFutureAttribute::replace(&mut item).unwrap();

    assert!(!item.params[0].deferred);
    assert!(!item.params[1].deferred);
    assert_eq!(item.generics.len(), 0);
}

#[test]
fn a_reference_with_its_own_lifetime_keeps_it() {
    let mut item = future_signature(
        vec![ParamDesc {
            receiver: false,
            name: ident("a", 1),
            ty: TypeDesc::Reference { lifetime: Some(chars("b")), is_mut: false, elem: chars("u32") },
            deferred: false,
            attrs: vec![future_attr(10)],
            span: sp(1),
        }],
        vec![GenericParam::Lifetime { name: chars("b") }],
    );

    ReplaceFutureAttribute::replace(&mut item).unwrap();

    let p = &item.params[0];
    assert!(p.deferred);
    match &p.ty {
        TypeDesc::Reference { lifetime: Some(l), .. } => assert_eq!(text(l), "b"),
        _ => panic!("expected the declared lifetime to survive"),
    }
    assert_eq!(item.generics.len(), 1);
}

#[test]
fn repeating_the_tag_is_reported_once_per_extra() {
    let mut item = future_signature(
        vec![ParamDesc {
            receiver: false,
            name: ident("a", 1),
            ty: TypeDesc::Plain { text: chars("u32") },
            deferred: false,
            attrs: vec![future_attr(10), future_attr(11)],
            span: sp(1),
        }],
        vec![],
    );

    let errors = ReplaceFutureAttribute::replace(&mut item).unwrap_err();

    assert_eq!(errors.len(), 1);
    assert_eq!(errors[0].kind, DiagKind::RepeatedFutureTag);
    assert_eq!(errors[0].span, sp(11));
    assert!(text(&errors[0].message).contains("more than once"));
}

#[test]
fn ineligible_shapes_are_rejected() {
    let mut item = future_signature(
        vec![
            ParamDesc {
                receiver: false,
                name: ident("a", 1),
                ty: TypeDesc::ImplTrait { text: chars("impl AsRef<str>") },
                deferred: false,
                attrs: vec![future_attr(10)],
                span: sp(1),
            },
            ParamDesc {
                receiver: false,
                name: ident("b", 2),
                ty: TypeDesc::Slice { text: chars("[i32]") },
                deferred: false,
                attrs: vec![future_attr(11)],
                span: sp(2),
            },
        ],
        vec![],
    );

    let errors = ReplaceFutureAttribute::replace(&mut item).unwrap_err();

    assert_eq!(errors.len(), 2);
    assert_eq!(errors[0].kind, DiagKind::TypeNotEligibleForFuture);
    assert_eq!(errors[1].kind, DiagKind::TypeNotEligibleForFuture);
}

#[test]
fn fixture_calls_ride_along_every_instantiation() {
    let mut modifiers = FixtureModifiers {
        inner: rstest_core::model::Attributes { attributes: vec![] },
    };
    modifiers.set_default_return_type(expr("u32", 9));
    let call = resolve_fixture(&ident("injected", 3), vec![expr("7", 10)], &modifiers, 0);
    let fixed = vec![NamedBinding { name: ident("injected", 3), value: BindingValue::Call(call) }];

    let base = ident("test", 0);
    let cps = vec![ident("a", 1)];
    let cases = vec![case_of(&["1"], None, 10), case_of(&["2"], None, 11)];
    let matrix: Vec<MatrixDecl> = vec![];

    let out = expand(&base, &cps, &cases, &matrix, &fixed);

    assert_eq!(out.len(), 2);
    for inst in &out {
        assert_eq!(inst.bindings.len(), 2);
        match &inst.bindings[1].value {
            BindingValue::Call(c) => {
                assert_eq!(text(&c.name.text), "injected");
                assert_eq!(c.args.len(), 1);
                match &c.ret {
                    RetOverride::Full(t) => assert_eq!(text(&t.text), "u32"),
                    _ => panic!("expected the full override"),
                }
            }
            _ => panic!("expected a fixture call"),
        }
    }
}

#[test]
fn text_helpers_round_trip() {
    let v = rstest_core::outside::chars_of("case_1::b_2");
    assert_eq!(rstest_core::outside::string_of(&v), "case_1::b_2");
}
