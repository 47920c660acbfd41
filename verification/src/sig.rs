//! The function-signature descriptor.
//!
//! The engine never reads real syntax trees: a collaborator (the signature
//! provider) hands it a descriptor of the annotated function — name,
//! attributes, generics, and the ordered parameter list, each parameter
//! with its name, its declared type shape, and its own attributes. The
//! descriptor is plain data; attribute payloads are annotation tokens, and
//! a declared type is carried as its shape plus source text.

use vstd::prelude::*;
use crate::diag::Span;
use crate::model::{IdentM, IdentS};
use crate::token::Leaf;

verus! {

/// The payload of a signature attribute: nothing (`#[future]`), or the
/// tokens between its parentheses (`#[with(42, "other")]`).
#[derive(Debug, Clone)]
pub enum AttrPayload {
    Empty,
    Tokens(Vec<Leaf>),
}

/// One attribute on the signature or on a parameter.
#[derive(Debug, Clone)]
pub struct FnAttribute {
    pub name: IdentS,
    pub payload: AttrPayload,
    pub span: Span,
}

/// The shape of a declared parameter type. What the rewrite pass must
/// distinguish is structural: a reference keeps its parts, every other
/// accepted shape is carried as text.
#[derive(Debug, Clone)]
pub enum TypeDesc {
    /// An anonymous group type.
    Grouped { text: Vec<char> },
    /// An existential `impl Trait` type.
    ImplTrait { text: Vec<char> },
    /// The inferred placeholder `_`.
    Infer,
    /// A macro-produced type.
    MacroMade { text: Vec<char> },
    /// The uninhabited type.
    Never,
    /// A slice type.
    Slice { text: Vec<char> },
    /// A trait-object type.
    TraitObject { text: Vec<char> },
    /// Tokens that stand for a type only verbatim.
    Opaque { text: Vec<char> },
    /// A reference, with its optional lifetime and referent text.
    Reference { lifetime: Option<Vec<char>>, is_mut: bool, elem: Vec<char> },
    /// Any other concrete type, as text.
    Plain { text: Vec<char> },
}

/// One declared parameter.
#[derive(Debug, Clone)]
pub struct ParamDesc {
    /// A receiver (self-like) parameter, excluded from all binding.
    pub receiver: bool,
    pub name: IdentS,
    pub ty: TypeDesc,
    /// Set by the future-rewrite pass: the bound type is a deferred
    /// computation whose completion yields `ty`.
    pub deferred: bool,
    pub attrs: Vec<FnAttribute>,
    pub span: Span,
}

/// One generic parameter of the signature.
#[derive(Debug, Clone)]
pub enum GenericParam {
    Lifetime { name: Vec<char> },
    TypeParam { text: Vec<char> },
    ConstParam { text: Vec<char> },
}

/// The whole signature descriptor.
#[derive(Debug, Clone)]
pub struct FunctionDesc {
    pub name: IdentS,
    pub attrs: Vec<FnAttribute>,
    pub generics: Vec<GenericParam>,
    pub params: Vec<ParamDesc>,
    pub span: Span,
}

// ----------------------------------------------------------------- mirrors

#[verifier::ext_equal]
pub enum PayloadM {
    Empty,
    Tokens(Seq<Leaf>),
}

#[verifier::ext_equal]
pub struct FnAttrM {
    pub name: IdentM,
    pub payload: PayloadM,
    pub span: Span,
}

#[verifier::ext_equal]
pub enum TypeM {
    Grouped { text: Seq<char> },
    ImplTrait { text: Seq<char> },
    Infer,
    MacroMade { text: Seq<char> },
    Never,
    Slice { text: Seq<char> },
    TraitObject { text: Seq<char> },
    Opaque { text: Seq<char> },
    Reference { lifetime: Option<Seq<char>>, is_mut: bool, elem: Seq<char> },
    Plain { text: Seq<char> },
}

#[verifier::ext_equal]
pub struct ParamM {
    pub receiver: bool,
    pub name: IdentM,
    pub ty: TypeM,
    pub deferred: bool,
    pub attrs: Seq<FnAttrM>,
    pub span: Span,
}

#[verifier::ext_equal]
pub enum GenericM {
    Lifetime { name: Seq<char> },
    TypeParam { text: Seq<char> },
    ConstParam { text: Seq<char> },
}

#[verifier::ext_equal]
pub struct FnM {
    pub name: IdentM,
    pub attrs: Seq<FnAttrM>,
    pub generics: Seq<GenericM>,
    pub params: Seq<ParamM>,
    pub span: Span,
}

// ------------------------------------------------------------------- views

impl View for AttrPayload {
    type V = PayloadM;

    open spec fn view(&self) -> PayloadM {
        match self {
            AttrPayload::Empty => PayloadM::Empty,
            AttrPayload::Tokens(v) => PayloadM::Tokens(v@),
        }
    }
}

impl View for FnAttribute {
    type V = FnAttrM;

    open spec fn view(&self) -> FnAttrM {
        FnAttrM { name: self.name@, payload: self.payload@, span: self.span }
    }
}

impl View for TypeDesc {
    type V = TypeM;

    open spec fn view(&self) -> TypeM {
        match self {
            TypeDesc::Grouped { text } => TypeM::Grouped { text: text@ },
            TypeDesc::ImplTrait { text } => TypeM::ImplTrait { text: text@ },
            TypeDesc::Infer => TypeM::Infer,
            TypeDesc::MacroMade { text } => TypeM::MacroMade { text: text@ },
            TypeDesc::Never => TypeM::Never,
            TypeDesc::Slice { text } => TypeM::Slice { text: text@ },
            TypeDesc::TraitObject { text } => TypeM::TraitObject { text: text@ },
            TypeDesc::Opaque { text } => TypeM::Opaque { text: text@ },
            TypeDesc::Reference { lifetime, is_mut, elem } => TypeM::Reference {
                lifetime: match lifetime {
                    Some(l) => Some(l@),
                    None => None,
                },
                is_mut: *is_mut,
                elem: elem@,
            },
            TypeDesc::Plain { text } => TypeM::Plain { text: text@ },
        }
    }
}

impl View for ParamDesc {
    type V = ParamM;

    open spec fn view(&self) -> ParamM {
        ParamM {
            receiver: self.receiver,
            name: self.name@,
            ty: self.ty@,
            deferred: self.deferred,
            attrs: self.attrs@.map_values(|a: FnAttribute| a@),
            span: self.span,
        }
    }
}

impl View for GenericParam {
    type V = GenericM;

    open spec fn view(&self) -> GenericM {
        match self {
            GenericParam::Lifetime { name } => GenericM::Lifetime { name: name@ },
            GenericParam::TypeParam { text } => GenericM::TypeParam { text: text@ },
            GenericParam::ConstParam { text } => GenericM::ConstParam { text: text@ },
        }
    }
}

impl View for FunctionDesc {
    type V = FnM;

    open spec fn view(&self) -> FnM {
        FnM {
            name: self.name@,
            attrs: self.attrs@.map_values(|a: FnAttribute| a@),
            generics: self.generics@.map_values(|g: GenericParam| g@),
            params: self.params@.map_values(|p: ParamDesc| p@),
            span: self.span,
        }
    }
}

} // verus!
