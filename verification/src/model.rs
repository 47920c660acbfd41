//! The structured annotation model.
//!
//! Parsing turns the token surface into a `FixtureInfo`: an ordered list
//! of items — fixture references and argument values — plus a set of
//! modifiers. Item order is preserved for diagnostics; name uniqueness is
//! not enforced here but later, by the signature matcher.
//!
//! Each executable type has a ghost mirror (`…M`) over `Seq`, reached
//! through its view; contracts speak about the mirrors.

use vstd::prelude::*;
use crate::diag::Span;

verus! {

/// An uninterpreted value expression: a span of source text, never
/// evaluated by the engine.
#[derive(Debug, Clone)]
pub struct ExprSpan {
    pub text: Vec<char>,
    pub span: Span,
}

/// An identifier with its position.
#[derive(Debug, Clone)]
pub struct IdentS {
    pub text: Vec<char>,
    pub span: Span,
}

/// A reference to a named fixture, with positional override arguments.
#[derive(Debug, Clone)]
pub struct Fixture {
    pub name: IdentS,
    pub positional: Vec<ExprSpan>,
}

/// A parameter bound directly to a value expression.
#[derive(Debug, Clone)]
pub struct ArgumentValue {
    pub name: IdentS,
    pub expr: ExprSpan,
}

/// One annotation item; every item exposes the bound name.
#[derive(Debug, Clone)]
pub enum FixtureItem {
    Fixture(Fixture),
    ArgumentValue(ArgumentValue),
}

/// The ordered item list of an annotation.
#[derive(Debug, Clone)]
pub struct FixtureData {
    pub items: Vec<FixtureItem>,
}

/// One modifier: a bare flag, a tagged flag with identifier arguments, or
/// a type-valued modifier (`name<Type>`).
#[derive(Debug, Clone)]
pub enum Attribute {
    Attr(IdentS),
    Tagged(IdentS, Vec<IdentS>),
    Type(IdentS, ExprSpan),
}

/// The modifier set of an annotation, order preserved.
#[derive(Debug, Clone)]
pub struct Attributes {
    pub attributes: Vec<Attribute>,
}

/// The modifiers of a fixture annotation.
#[derive(Debug, Clone)]
pub struct FixtureModifiers {
    pub inner: Attributes,
}

/// A parsed fixture annotation: items plus modifiers.
#[derive(Debug, Clone)]
pub struct FixtureInfo {
    pub data: FixtureData,
    pub attributes: FixtureModifiers,
}

// ----------------------------------------------------------------- mirrors

#[verifier::ext_equal]
pub struct ExprM {
    pub text: Seq<char>,
    pub span: Span,
}

#[verifier::ext_equal]
pub struct IdentM {
    pub text: Seq<char>,
    pub span: Span,
}

#[verifier::ext_equal]
pub struct FixtureM {
    pub name: IdentM,
    pub positional: Seq<ExprM>,
}

#[verifier::ext_equal]
pub struct ArgumentValueM {
    pub name: IdentM,
    pub expr: ExprM,
}

#[verifier::ext_equal]
pub enum ItemM {
    Fixture(FixtureM),
    Value(ArgumentValueM),
}

#[verifier::ext_equal]
pub enum AttrM {
    Attr(IdentM),
    Tagged(IdentM, Seq<IdentM>),
    Type(IdentM, ExprM),
}

#[verifier::ext_equal]
pub struct InfoM {
    pub items: Seq<ItemM>,
    pub attrs: Seq<AttrM>,
}

impl ItemM {
    /// Every item exposes the name it binds.
    pub open spec fn name(self) -> Seq<char> {
        match self {
            ItemM::Fixture(f) => f.name.text,
            ItemM::Value(v) => v.name.text,
        }
    }

    pub open spec fn name_span(self) -> Span {
        match self {
            ItemM::Fixture(f) => f.name.span,
            ItemM::Value(v) => v.name.span,
        }
    }
}

impl InfoM {
    pub open spec fn empty() -> InfoM {
        InfoM { items: Seq::empty(), attrs: Seq::empty() }
    }
}

// ------------------------------------------------------------------- views

impl View for ExprSpan {
    type V = ExprM;

    open spec fn view(&self) -> ExprM {
        ExprM { text: self.text@, span: self.span }
    }
}

impl View for IdentS {
    type V = IdentM;

    open spec fn view(&self) -> IdentM {
        IdentM { text: self.text@, span: self.span }
    }
}

impl View for Fixture {
    type V = FixtureM;

    open spec fn view(&self) -> FixtureM {
        FixtureM {
            name: self.name@,
            positional: self.positional@.map_values(|e: ExprSpan| e@),
        }
    }
}

impl View for ArgumentValue {
    type V = ArgumentValueM;

    open spec fn view(&self) -> ArgumentValueM {
        ArgumentValueM { name: self.name@, expr: self.expr@ }
    }
}

impl View for FixtureItem {
    type V = ItemM;

    open spec fn view(&self) -> ItemM {
        match self {
            FixtureItem::Fixture(f) => ItemM::Fixture(f@),
            FixtureItem::ArgumentValue(v) => ItemM::Value(v@),
        }
    }
}

impl View for FixtureData {
    type V = Seq<ItemM>;

    open spec fn view(&self) -> Seq<ItemM> {
        self.items@.map_values(|it: FixtureItem| it@)
    }
}

impl View for Attribute {
    type V = AttrM;

    open spec fn view(&self) -> AttrM {
        match self {
            Attribute::Attr(n) => AttrM::Attr(n@),
            Attribute::Tagged(n, args) => AttrM::Tagged(
                n@,
                args@.map_values(|a: IdentS| a@),
            ),
            Attribute::Type(n, t) => AttrM::Type(n@, t@),
        }
    }
}

impl View for Attributes {
    type V = Seq<AttrM>;

    open spec fn view(&self) -> Seq<AttrM> {
        self.attributes@.map_values(|a: Attribute| a@)
    }
}

impl View for FixtureModifiers {
    type V = Seq<AttrM>;

    open spec fn view(&self) -> Seq<AttrM> {
        self.inner@
    }
}

impl View for FixtureInfo {
    type V = InfoM;

    open spec fn view(&self) -> InfoM {
        InfoM { items: self.data@, attrs: self.attributes@ }
    }
}

// ------------------------------------------------------------ construction

impl IdentS {
    /// A fresh copy of this identifier.
    pub fn duplicate(&self) -> (r: IdentS)
        ensures
            r@ == self@,
    {
        IdentS { text: crate::token::copy_chars(&self.text), span: self.span }
    }
}


impl ArgumentValue {
    pub fn new(name: IdentS, expr: ExprSpan) -> (r: ArgumentValue)
        ensures
            r@ == (ArgumentValueM { name: name@, expr: expr@ }),
    {
        ArgumentValue { name, expr }
    }
}

impl Fixture {
    pub fn new(name: IdentS, positional: Vec<ExprSpan>) -> (r: Fixture)
        ensures
            r@ == (FixtureM {
                name: name@,
                positional: positional@.map_values(|e: ExprSpan| e@),
            }),
    {
        Fixture { name, positional }
    }
}

impl FixtureItem {
    /// The name this item binds, whatever its kind.
    pub fn ident(&self) -> (r: &IdentS)
        ensures
            r@.text == self@.name(),
            r@.span == self@.name_span(),
    {
        match self {
            FixtureItem::Fixture(Fixture { name, .. }) => name,
            FixtureItem::ArgumentValue(ArgumentValue { name, .. }) => name,
        }
    }
}

/// The fixture references among the first `n` items, in order.
pub open spec fn fixtures_upto(items: Seq<ItemM>, n: int) -> Seq<FixtureM>
    decreases n,
{
    if n <= 0 {
        Seq::empty()
    } else {
        fixtures_upto(items, n - 1) + (match items[n - 1] {
            ItemM::Fixture(f) => seq![f],
            ItemM::Value(_) => Seq::empty(),
        })
    }
}

/// The argument values among the first `n` items, in order.
pub open spec fn values_upto(items: Seq<ItemM>, n: int) -> Seq<ArgumentValueM>
    decreases n,
{
    if n <= 0 {
        Seq::empty()
    } else {
        values_upto(items, n - 1) + (match items[n - 1] {
            ItemM::Fixture(_) => Seq::empty(),
            ItemM::Value(v) => seq![v],
        })
    }
}

impl FixtureData {
    /// The fixture references among the items, in order.
    pub fn fixtures(&self) -> (r: Vec<&Fixture>)
        ensures
            r@.map_values(|f: &Fixture| f@) == fixtures_upto(self@, self@.len() as int),
    {
        let ghost im = self@;
        let mut out: Vec<&Fixture> = Vec::new();
        proof {
            assert(out@.map_values(|f: &Fixture| f@) =~~= fixtures_upto(im, 0));
        }
        let mut i: usize = 0;
        while i < self.items.len()
            invariant
                i <= self.items@.len(),
                im == self@,
                im.len() == self.items@.len(),
                out@.map_values(|f: &Fixture| f@) == fixtures_upto(im, i as int),
            decreases self.items@.len() - i,
        {
            let ghost prev = out@;
            proof {
                assert(im[i as int] == self.items@[i as int]@);
            }
            match &self.items[i] {
                FixtureItem::Fixture(f) => {
                    out.push(f);
                    proof {
                        assert(out@.map_values(|x: &Fixture| x@) =~~= prev.map_values(
                            |x: &Fixture| x@,
                        ).push(f@));
                    }
                },
                FixtureItem::ArgumentValue(_) => (),
            }
            i += 1;
            proof {
                assert(out@.map_values(|f: &Fixture| f@) =~~= fixtures_upto(im, i as int));
            }
        }
        out
    }

    /// The argument values among the items, in order.
    pub fn values(&self) -> (r: Vec<&ArgumentValue>)
        ensures
            r@.map_values(|v: &ArgumentValue| v@) == values_upto(self@, self@.len() as int),
    {
        let ghost im = self@;
        let mut out: Vec<&ArgumentValue> = Vec::new();
        proof {
            assert(out@.map_values(|v: &ArgumentValue| v@) =~~= values_upto(im, 0));
        }
        let mut i: usize = 0;
        while i < self.items.len()
            invariant
                i <= self.items@.len(),
                im == self@,
                im.len() == self.items@.len(),
                out@.map_values(|v: &ArgumentValue| v@) == values_upto(im, i as int),
            decreases self.items@.len() - i,
        {
            let ghost prev = out@;
            proof {
                assert(im[i as int] == self.items@[i as int]@);
            }
            match &self.items[i] {
                FixtureItem::ArgumentValue(v) => {
                    out.push(v);
                    proof {
                        assert(out@.map_values(|x: &ArgumentValue| x@) =~~= prev.map_values(
                            |x: &ArgumentValue| x@,
                        ).push(v@));
                    }
                },
                FixtureItem::Fixture(_) => (),
            }
            i += 1;
            proof {
                assert(out@.map_values(|v: &ArgumentValue| v@) =~~= values_upto(im, i as int));
            }
        }
        out
    }
}

impl FixtureInfo {
    /// The annotation with no items and no modifiers.
    pub fn empty() -> (r: FixtureInfo)
        ensures
            r@ == InfoM::empty(),
    {
        let r = FixtureInfo {
            data: FixtureData { items: Vec::new() },
            attributes: FixtureModifiers { inner: Attributes { attributes: Vec::new() } },
        };
        proof {
            assert(r@.items =~= Seq::<ItemM>::empty());
            assert(r@.attrs =~= Seq::<AttrM>::empty());
        }
        r
    }
}

} // verus!
