//! The annotation grammar, exercised from text through the real lexer.

use rstest_core::diag::DiagKind;
use rstest_core::lex::tokens_of_text;
use rstest_core::model::{Attribute, FixtureInfo, FixtureItem};
use rstest_core::token::render_tokens;

fn text(v: &Vec<char>) -> String {
    v.iter().collect()
}

fn parse_annotation(src: &str) -> Result<FixtureInfo, rstest_core::diag::Diagnostic> {
    let tokens = tokens_of_text(src).expect("the annotation must lex");
    FixtureInfo::parse(&tokens)
}

/// The canonical text of one value expression, as the parser renders it.
fn expr_text(src: &str) -> String {
    let tokens = tokens_of_text(src).expect("the expression must lex");
    let n = tokens.len();
    text(&render_tokens(&tokens, 0, n))
}

struct ExpectedFixture<'a> {
    name: &'a str,
    args: Vec<String>,
}

fn check_fixture(item: &FixtureItem, want: &ExpectedFixture) {
    match item {
        FixtureItem::Fixture(f) => {
            assert_eq!(text(&f.name.text), want.name);
            assert_eq!(f.positional.len(), want.args.len());
            for (arg, expected) in f.positional.iter().zip(want.args.iter()) {
                assert_eq!(&text(&arg.text), expected);
            }
        }
        FixtureItem::ArgumentValue(_) => panic!("expected a fixture item"),
    }
}

fn check_value(item: &FixtureItem, name: &str, expr: &str) {
    match item {
        FixtureItem::ArgumentValue(v) => {
            assert_eq!(text(&v.name.text), name);
            assert_eq!(text(&v.expr.text), expr);
        }
        FixtureItem::Fixture(_) => panic!("expected a value item"),
    }
}

#[test]
fn empty_annotation_round_trip() {
    let info = parse_annotation("").unwrap();
    assert_eq!(info.data.items.len(), 0);
    assert_eq!(info.attributes.inner.attributes.len(), 0);
}

#[test]
fn fixture_happy_path() {
    let info = parse_annotation(
        r#"my_fixture(42, "other"), other(vec![42]), value=42, other_value=vec![1.0]
            :: trace :: no_trace(some)"#,
    )
    .unwrap();

    let items = &info.data.items;
    assert_eq!(items.len(), 4);
    check_fixture(
        &items[0],
        &ExpectedFixture { name: "my_fixture", args: vec![expr_text("42"), expr_text(r#""other""#)] },
    );
    check_fixture(&items[1], &ExpectedFixture { name: "other", args: vec![expr_text("vec![42]")] });
    check_value(&items[2], "value", &expr_text("42"));
    check_value(&items[3], "other_value", &expr_text("vec![1.0]"));

    let attrs = &info.attributes.inner.attributes;
    assert_eq!(attrs.len(), 2);
    match &attrs[0] {
        Attribute::Attr(n) => assert_eq!(text(&n.text), "trace"),
        _ => panic!("expected a bare flag"),
    }
    match &attrs[1] {
        Attribute::Tagged(n, args) => {
            assert_eq!(text(&n.text), "no_trace");
            assert_eq!(args.len(), 1);
            assert_eq!(text(&args[0].text), "some");
        }
        _ => panic!("expected a tagged flag"),
    }
}

#[test]
fn some_literals() {
    let args_expressions = [
        "42",
        "42isize",
        "1.0",
        "-1",
        "-1.0",
        "true",
        "1_000_000u64",
        "0b10100101u8",
        r#""42""#,
        "b'H'",
    ];
    let info = parse_annotation(&format!("my_fixture({})", args_expressions.join(", "))).unwrap();

    let fixtures = info.data.fixtures();
    assert_eq!(fixtures.len(), 1);
    assert_eq!(info.data.values().len(), 0);
    let args = &fixtures[0].positional;
    assert_eq!(args.len(), args_expressions.len());
    for (arg, src) in args.iter().zip(args_expressions.iter()) {
        assert_eq!(text(&arg.text), expr_text(src));
    }
}

#[test]
fn empty_fixtures() {
    let info = parse_annotation(r#"::trace::no_trace(some)"#).unwrap();

    assert_eq!(info.data.items.len(), 0);
    let attrs = &info.attributes.inner.attributes;
    assert_eq!(attrs.len(), 2);
    match &attrs[0] {
        Attribute::Attr(n) => assert_eq!(text(&n.text), "trace"),
        _ => panic!("expected a bare flag"),
    }
    match &attrs[1] {
        Attribute::Tagged(n, args) => {
            assert_eq!(text(&n.text), "no_trace");
            assert_eq!(args.len(), 1);
            assert_eq!(text(&args[0].text), "some");
        }
        _ => panic!("expected a tagged flag"),
    }
}

#[test]
fn empty_attributes() {
    let info = parse_annotation(r#"my_fixture(42, "other")"#).unwrap();

    assert_eq!(info.data.items.len(), 1);
    check_fixture(
        &info.data.items[0],
        &ExpectedFixture { name: "my_fixture", args: vec![expr_text("42"), expr_text(r#""other""#)] },
    );
    assert_eq!(info.attributes.inner.attributes.len(), 0);
}

fn count_items(src: &str) -> usize {
    parse_annotation(src).unwrap().data.items.len()
}

#[test]
fn accepts_trailing_comma_before_end() {
    assert_eq!(count_items("first(42),"), 1);
    assert_eq!(count_items("first(42)"), 1);
}

#[test]
fn accepts_trailing_comma_between_items() {
    assert_eq!(count_items("first(42), second=42,"), 2);
    assert_eq!(count_items("first(42), second=42"), 2);
}

#[test]
fn accepts_trailing_comma_before_modifiers() {
    assert_eq!(count_items(r#"fixture(42, "other"), :: trace"#), 1);
    assert_eq!(count_items(r#"fixture(42, "other") :: trace"#), 1);
}

#[test]
fn accepts_trailing_comma_before_modifiers_after_value() {
    assert_eq!(count_items(r#"second=42, fixture(42, "other"), :: trace"#), 2);
    assert_eq!(count_items(r#"second=42, fixture(42, "other") :: trace"#), 2);
}

#[test]
fn type_valued_modifier() {
    let info = parse_annotation("fix :: default<Vec<u32>>").unwrap();
    let attrs = &info.attributes.inner.attributes;
    assert_eq!(attrs.len(), 1);
    match &attrs[0] {
        Attribute::Type(n, t) => {
            assert_eq!(text(&n.text), "default");
            assert_eq!(text(&t.text), expr_text("Vec<u32>"));
        }
        _ => panic!("expected a type-valued modifier"),
    }
}

#[test]
fn rejects_leading_comma() {
    let err = parse_annotation(", first(42)").unwrap_err();
    assert_eq!(err.kind, DiagKind::Syntax);
}

#[test]
fn rejects_double_comma_between_arguments() {
    let err = parse_annotation("my_fixture(42,, 7)").unwrap_err();
    assert_eq!(err.kind, DiagKind::Syntax);
}

#[test]
fn rejects_bad_value_expression() {
    let err = parse_annotation("value=, other").unwrap_err();
    assert_eq!(err.kind, DiagKind::Syntax);
}

#[test]
fn rejects_expression_that_is_no_expression() {
    // `use` is a keyword: the argument span cannot be an expression
    let err = parse_annotation("my_fixture(use)").unwrap_err();
    assert_eq!(err.kind, DiagKind::Syntax);
}

#[test]
fn path_values_keep_their_separators() {
    // after an identifier a `::` reads as a path continuation: the whole
    // run is one value expression and no modifier section remains
    let info = parse_annotation("value=std::f64::MAX :: trace").unwrap();
    assert_eq!(info.data.items.len(), 1);
    check_value(&info.data.items[0], "value", &expr_text("std::f64::MAX::trace"));
    assert_eq!(info.attributes.inner.attributes.len(), 0);

    // a comma ends the expression, so the modifier section is recognized
    let info = parse_annotation("value=std::f64::MAX, :: trace").unwrap();
    assert_eq!(info.data.items.len(), 1);
    check_value(&info.data.items[0], "value", &expr_text("std::f64::MAX"));
    assert_eq!(info.attributes.inner.attributes.len(), 1);
}
