//! Extending annotations with signature attributes, in descriptor form.

use rstest_core::diag::Span;
use rstest_core::extend::{extract_default_return_type, extract_partials_return_type};
use rstest_core::lex::tokens_of_text;
use rstest_core::model::{FixtureInfo, FixtureItem, IdentS};
use rstest_core::sig::{AttrPayload, FnAttribute, FunctionDesc, GenericParam, ParamDesc, TypeDesc};
use rstest_core::token::{render_leaves, Leaf, Token};

fn chars(s: &str) -> Vec<char> {
    s.chars().collect()
}

fn text(v: &Vec<char>) -> String {
    v.iter().collect()
}

fn sp(k: usize) -> Span {
    Span { lo: k, hi: k + 1 }
}

fn ident(s: &str, k: usize) -> IdentS {
    IdentS { text: chars(s), span: sp(k) }
}

/// The tokens between an attribute's parentheses, through the real lexer.
fn payload_of(src: &str) -> Vec<Leaf> {
    let wrapped = format!("({})", src);
    let tokens = tokens_of_text(&wrapped).expect("the payload must lex");
    match tokens.into_iter().next().expect("one group") {
        Token::Group { inner, .. } => inner,
        _ => panic!("expected a group"),
    }
}

/// The canonical text of a payload, as the extraction renders it.
fn payload_text(src: &str) -> String {
    let leaves = payload_of(src);
    let n = leaves.len();
    text(&render_leaves(&leaves, 0, n))
}

fn fn_attr(name: &str, payload: Option<&str>, k: usize) -> FnAttribute {
    FnAttribute {
        name: ident(name, k),
        payload: match payload {
            Some(src) => AttrPayload::Tokens(payload_of(src)),
            None => AttrPayload::Empty,
        },
        span: sp(k),
    }
}

fn param(name: &str, attrs: Vec<FnAttribute>, k: usize) -> ParamDesc {
    ParamDesc {
        receiver: false,
        name: ident(name, k),
        ty: TypeDesc::Plain { text: chars("u32") },
        deferred: false,
        attrs,
        span: sp(k),
    }
}

fn signature(attrs: Vec<FnAttribute>, generics: Vec<GenericParam>, params: Vec<ParamDesc>) -> FunctionDesc {
    FunctionDesc { name: ident("my_fix", 0), attrs, generics, params, span: sp(0) }
}

fn type_generics(names: &[&str]) -> Vec<GenericParam> {
    names.iter().map(|n| GenericParam::TypeParam { text: chars(n) }).collect()
}

#[test]
fn use_with_attributes() {
    let mut item_fn = signature(
        vec![],
        vec![],
        vec![
            param("f1", vec![fn_attr("with", Some("2"), 10)], 1),
            param("f2", vec![fn_attr("with", Some(r#"vec![1,2], "s""#), 11)], 2),
        ],
    );
    let mut info = FixtureInfo::empty();

    info.extend_with_function_attrs(&mut item_fn).unwrap();

    assert_eq!(info.data.items.len(), 2);
    match &info.data.items[0] {
        FixtureItem::Fixture(f) => {
            assert_eq!(text(&f.name.text), "f1");
            assert_eq!(f.positional.len(), 1);
            assert_eq!(text(&f.positional[0].text), payload_text("2"));
        }
        _ => panic!("expected a fixture"),
    }
    match &info.data.items[1] {
        FixtureItem::Fixture(f) => {
            assert_eq!(text(&f.name.text), "f2");
            assert_eq!(f.positional.len(), 2);
            assert_eq!(text(&f.positional[0].text), payload_text("vec![1,2]"));
            assert_eq!(text(&f.positional[1].text), payload_text(r#""s""#));
        }
        _ => panic!("expected a fixture"),
    }
    // the used attributes are gone from the signature
    assert!(item_fn.params.iter().all(|p| p.attrs.is_empty()));
}

#[test]
fn use_default_values_attributes() {
    let mut item_fn = signature(
        vec![],
        vec![],
        vec![
            param("f1", vec![fn_attr("default", Some("2"), 10)], 1),
            param("f2", vec![fn_attr("default", Some(r#"(vec![1,2], "s")"#), 11)], 2),
        ],
    );
    let mut info = FixtureInfo::empty();

    info.extend_with_function_attrs(&mut item_fn).unwrap();

    assert_eq!(info.data.items.len(), 2);
    match &info.data.items[0] {
        FixtureItem::ArgumentValue(v) => {
            assert_eq!(text(&v.name.text), "f1");
            assert_eq!(text(&v.expr.text), payload_text("2"));
        }
        _ => panic!("expected a value"),
    }
    match &info.data.items[1] {
        FixtureItem::ArgumentValue(v) => {
            assert_eq!(text(&v.name.text), "f2");
            assert_eq!(text(&v.expr.text), payload_text(r#"(vec![1,2], "s")"#));
        }
        _ => panic!("expected a value"),
    }
    assert!(item_fn.params.iter().all(|p| p.attrs.is_empty()));
}

#[test]
fn find_default_return_type() {
    let mut item_fn = signature(
        vec![
            fn_attr("simple", None, 10),
            fn_attr("first", Some("comp"), 11),
            fn_attr("second::default", None, 12),
            fn_attr("default", Some("impl Iterator<Item=(u32, i32)>"), 13),
            fn_attr("last::more", None, 14),
        ],
        type_generics(&["I", "J"]),
        vec![param("f1", vec![], 1), param("f2", vec![], 2)],
    );
    let mut info = FixtureInfo::empty();

    info.extend_with_function_attrs(&mut item_fn).unwrap();

    let found = info.attributes.extract_default_type().expect("a default return type");
    assert_eq!(text(&found.text), payload_text("impl Iterator<Item=(u32, i32)>"));
    let remaining: Vec<String> = item_fn.attrs.iter().map(|a| text(&a.name.text)).collect();
    assert_eq!(remaining, vec!["simple", "first", "second::default", "last::more"]);
}

#[test]
fn find_partials_return_type() {
    let mut item_fn = signature(
        vec![
            fn_attr("simple", None, 10),
            fn_attr("first", Some("comp"), 11),
            fn_attr("second::default", None, 12),
            fn_attr("partial_1", Some("impl Iterator<Item=(u32, J, K)>"), 13),
            fn_attr("partial_2", Some("impl Iterator<Item=(u32, i32, K)>"), 14),
            fn_attr("last::more", None, 15),
        ],
        type_generics(&["I", "J", "K"]),
        vec![param("f1", vec![], 1), param("f2", vec![], 2), param("f3", vec![], 3)],
    );
    let mut info = FixtureInfo::empty();

    info.extend_with_function_attrs(&mut item_fn).unwrap();

    let p1 = info.attributes.extract_partial_type(1).expect("a partial for position 1");
    assert_eq!(text(&p1.text), payload_text("impl Iterator<Item=(u32, J, K)>"));
    let p2 = info.attributes.extract_partial_type(2).expect("a partial for position 2");
    assert_eq!(text(&p2.text), payload_text("impl Iterator<Item=(u32, i32, K)>"));
    let remaining: Vec<String> = item_fn.attrs.iter().map(|a| text(&a.name.text)).collect();
    assert_eq!(remaining, vec!["simple", "first", "second::default", "last::more"]);
}

#[test]
fn for_invalid_expressions() {
    let mut item_fn = signature(
        vec![],
        vec![],
        vec![
            param("f1", vec![fn_attr("with", Some("valid"), 10)], 1),
            param("f2", vec![fn_attr("with", Some("with(,.,)"), 11)], 2),
            param("f3", vec![fn_attr("with", Some("with(use)"), 12)], 3),
        ],
    );
    let mut info = FixtureInfo::empty();

    let errors = info.extend_with_function_attrs(&mut item_fn).unwrap_err();

    assert_eq!(errors.len(), 2);
}

#[test]
fn for_invalid_default_type() {
    let mut item_fn = signature(
        vec![fn_attr("default", Some("no<valid::>type"), 10)],
        type_generics(&["I"]),
        vec![],
    );
    let mut info = FixtureInfo::empty();

    let errors = info.extend_with_function_attrs(&mut item_fn).unwrap_err();

    assert_eq!(errors.len(), 1);
}

#[test]
fn if_default_is_defined_more_than_once() {
    let mut item_fn = signature(
        vec![fn_attr("default", Some("u32"), 10), fn_attr("default", Some("u32"), 11)],
        type_generics(&["I"]),
        vec![],
    );
    let mut info = FixtureInfo::empty();

    let errors = info.extend_with_function_attrs(&mut item_fn).unwrap_err();

    assert_eq!(errors.len(), 1);
    let message: String = errors[0].message.iter().collect::<String>().to_lowercase();
    assert!(message.contains("cannot use default more than once"));
    // the repeated declaration is reported at its second occurrence
    assert_eq!(errors[0].span, sp(11));
}

#[test]
fn for_invalid_partial_type() {
    let mut item_fn = signature(
        vec![fn_attr("partial_1", Some("no<valid::>type"), 10)],
        type_generics(&["I"]),
        vec![param("x", vec![], 1), param("y", vec![], 2)],
    );
    let mut info = FixtureInfo::empty();

    let errors = info.extend_with_function_attrs(&mut item_fn).unwrap_err();

    assert_eq!(errors.len(), 1);
}

#[test]
fn if_partial_is_not_correct() {
    let mut item_fn = signature(
        vec![fn_attr("partial_not_a_number", Some("u32"), 10)],
        type_generics(&["I", "J"]),
        vec![param("f1", vec![], 1), param("f2", vec![], 2)],
    );
    let mut info = FixtureInfo::empty();

    let errors = info.extend_with_function_attrs(&mut item_fn).unwrap_err();

    assert_eq!(errors.len(), 1);
    let message: String = errors[0].message.iter().collect::<String>().to_lowercase();
    assert!(message.contains("invalid partial syntax"));
}

#[test]
fn partial_position_beyond_the_generics_is_invalid() {
    let mut item_fn = signature(
        vec![fn_attr("partial_3", Some("u32"), 10)],
        type_generics(&["I", "J"]),
        vec![],
    );
    let mut info = FixtureInfo::empty();

    let errors = info.extend_with_function_attrs(&mut item_fn).unwrap_err();

    assert_eq!(errors.len(), 1);
    let message: String = errors[0].message.iter().collect();
    assert!(message.contains("invalid partial syntax"));
}

#[test]
fn direct_extraction_keeps_other_attributes() {
    let mut item_fn = signature(
        vec![
            fn_attr("keepme", None, 10),
            fn_attr("default", Some("u32"), 11),
            fn_attr("partial_1", Some("i32"), 12),
        ],
        type_generics(&["I"]),
        vec![],
    );

    let ret = extract_default_return_type(&mut item_fn).unwrap().expect("a default type");
    assert_eq!(text(&ret.text), payload_text("u32"));
    let partials = extract_partials_return_type(&mut item_fn).unwrap();
    assert_eq!(partials.len(), 1);
    assert_eq!(partials[0].pos, 1);
    assert_eq!(text(&partials[0].ty.text), payload_text("i32"));
    let remaining: Vec<String> = item_fn.attrs.iter().map(|a| text(&a.name.text)).collect();
    assert_eq!(remaining, vec!["keepme"]);
}
