//! Fixture-call resolution.
//!
//! Each fixture binding resolves to a call descriptor: the fixture's
//! name, its positional override arguments, and its return-type override.
//! The override comes from the modifier set: a `default` modifier fixes
//! the whole return type, a `partial_N` modifier fixes only the first `N`
//! generic positions, and neither leaves the fixture's natural return
//! type in force.

use vstd::prelude::*;
use crate::diag::Span;
use crate::model::{Attribute, AttrM, ExprM, ExprSpan, FixtureModifiers, IdentM, IdentS};
use crate::names::dec_str;
use crate::outside::chars_of;
use crate::token::{chars_eq, copy_chars, extend_chars};

verus! {

/// A fixture's return-type override.
#[derive(Debug)]
pub enum RetOverride {
    /// The fixture's natural return type stands.
    Natural,
    /// Full specialization to this type.
    Full(ExprSpan),
    /// Specialization of the first `N` generic positions to this type.
    Partial(usize, ExprSpan),
}

/// One resolved fixture call.
#[derive(Debug)]
pub struct FixtureCall {
    pub name: IdentS,
    pub args: Vec<ExprSpan>,
    pub ret: RetOverride,
}

#[verifier::ext_equal]
pub enum RetM {
    Natural,
    Full(ExprM),
    Partial(int, ExprM),
}

#[verifier::ext_equal]
pub struct CallM {
    pub name: IdentM,
    pub args: Seq<ExprM>,
    pub ret: RetM,
}

impl View for RetOverride {
    type V = RetM;

    open spec fn view(&self) -> RetM {
        match self {
            RetOverride::Natural => RetM::Natural,
            RetOverride::Full(t) => RetM::Full(t@),
            RetOverride::Partial(n, t) => RetM::Partial(*n as int, t@),
        }
    }
}

impl View for FixtureCall {
    type V = CallM;

    open spec fn view(&self) -> CallM {
        CallM {
            name: self.name@,
            args: self.args@.map_values(|e: ExprSpan| e@),
            ret: self.ret@,
        }
    }
}

impl ExprSpan {
    /// A fresh copy of this expression span.
    pub fn duplicate(&self) -> (r: ExprSpan)
        ensures
            r@ == self@,
    {
        ExprSpan { text: copy_chars(&self.text), span: self.span }
    }
}

impl RetOverride {
    /// A fresh copy of this override.
    pub fn duplicate(&self) -> (r: RetOverride)
        ensures
            r@ == self@,
    {
        match self {
            RetOverride::Natural => RetOverride::Natural,
            RetOverride::Full(t) => RetOverride::Full(t.duplicate()),
            RetOverride::Partial(n, t) => RetOverride::Partial(*n, t.duplicate()),
        }
    }
}

impl FixtureCall {
    /// A fresh copy of this call descriptor.
    pub fn duplicate(&self) -> (r: FixtureCall)
        ensures
            r@ == self@,
    {
        let mut args: Vec<ExprSpan> = Vec::new();
        let mut i: usize = 0;
        while i < self.args.len()
            invariant
                i <= self.args@.len(),
                args@.map_values(|e: ExprSpan| e@) == self.args@.map_values(
                    |e: ExprSpan| e@,
                ).take(i as int),
            decreases self.args@.len() - i,
        {
            let ghost prev = args@;
            let e = self.args[i].duplicate();
            let ghost ev = e@;
            args.push(e);
            i += 1;
            proof {
                assert(args@ == prev.push(e));
                assert(ev == self.args@[i - 1]@);
                assert(args@.map_values(|x: ExprSpan| x@) =~~= prev.map_values(
                    |x: ExprSpan| x@,
                ).push(ev));
                assert(args@.map_values(|e: ExprSpan| e@) =~~= self.args@.map_values(
                    |e: ExprSpan| e@,
                ).take(i as int));
            }
        }
        proof {
            assert(self.args@.map_values(|e: ExprSpan| e@).take(self.args@.len() as int)
                =~= self.args@.map_values(|e: ExprSpan| e@));
        }
        let r = FixtureCall { name: self.name.duplicate(), args, ret: self.ret.duplicate() };
        proof {
            assert(r@ =~~= self@);
        }
        r
    }
}

// ------------------------------------------------------- modifier lookup

/// The name of the full-specialization modifier.
pub open spec fn default_ret_name() -> Seq<char> {
    "default"@
}

/// The name prefix of a partial-specialization modifier.
pub open spec fn partial_ret_prefix() -> Seq<char> {
    "partial_"@
}

/// The name of the modifier that fixes the first `pos` generic positions.
pub open spec fn partial_ret_name(pos: int) -> Seq<char> {
    partial_ret_prefix() + dec_str(pos as nat)
}

/// The first type-valued modifier carrying this name, if any.
pub open spec fn first_type_of(attrs: Seq<AttrM>, n: Seq<char>) -> Option<ExprM>
    decreases attrs.len(),
{
    if attrs.len() == 0 {
        Option::None
    } else {
        match attrs[0] {
            AttrM::Type(id, t) => if id.text == n {
                Option::Some(t)
            } else {
                first_type_of(attrs.drop_first(), n)
            },
            _ => first_type_of(attrs.drop_first(), n),
        }
    }
}

impl FixtureModifiers {
    /// The first type-valued modifier with this name.
    pub fn extract_type(&self, attr_name: &Vec<char>) -> (r: Option<&ExprSpan>)
        ensures
            ({
                let want = first_type_of(self@, attr_name@);
                match r {
                    Some(t) => want == Option::Some(t@),
                    None => want is None,
                }
            }),
    {
        let ghost am = self@;
        let attrs = &self.inner.attributes;
        proof {
            assert(am.skip(0) =~= am);
        }
        let mut i: usize = 0;
        while i < attrs.len()
            invariant
                i <= attrs@.len(),
                am == self@,
                self@ == attrs@.map_values(|a: Attribute| a@),
                first_type_of(am, attr_name@) == first_type_of(am.skip(i as int), attr_name@),
            decreases attrs@.len() - i,
        {
            let keep: Option<&ExprSpan> = match &attrs[i] {
                Attribute::Type(id, t) => {
                    if chars_eq(&id.text, attr_name) {
                        Some(t)
                    } else {
                        None
                    }
                },
                _ => None,
            };
            proof {
                assert(am.skip(i as int)[0] == attrs@[i as int]@);
                assert(am.skip(i as int).drop_first() =~= am.skip(i + 1));
            }
            if let Some(t) = keep {
                return Some(t);
            }
            i += 1;
        }
        proof {
            assert(am.skip(i as int) =~= Seq::<AttrM>::empty());
        }
        None
    }

    /// The `default` full-specialization override, if declared.
    pub fn extract_default_type(&self) -> (r: Option<&ExprSpan>)
        ensures
            ({
                let want = first_type_of(self@, default_ret_name());
                match r {
                    Some(t) => want == Option::Some(t@),
                    None => want is None,
                }
            }),
    {
        let name = chars_of("default");
        self.extract_type(&name)
    }

    /// The `partial_N` override for position `pos`, if declared.
    pub fn extract_partial_type(&self, pos: usize) -> (r: Option<&ExprSpan>)
        ensures
            ({
                let want = first_type_of(self@, partial_ret_name(pos as int));
                match r {
                    Some(t) => want == Option::Some(t@),
                    None => want is None,
                }
            }),
    {
        let mut name = chars_of("partial_");
        crate::names::push_dec(&mut name, pos);
        self.extract_type(&name)
    }

    /// Record the full-specialization return type.
    pub fn set_default_return_type(&mut self, return_type: ExprSpan)
        ensures
            final(self)@ == old(self)@.push(
                AttrM::Type(
                    IdentM { text: default_ret_name(), span: return_type@.span },
                    return_type@,
                ),
            ),
    {
        let ghost before = self@;
        let name = IdentS { text: chars_of("default"), span: return_type.span };
        let ghost av = AttrM::Type(name@, return_type@);
        self.inner.attributes.push(Attribute::Type(name, return_type));
        proof {
            assert(final(self)@ =~~= before.push(av));
        }
    }

    /// Record a partial-specialization return type for position `id`.
    pub fn set_partial_return_type(&mut self, id: usize, return_type: ExprSpan)
        ensures
            final(self)@ == old(self)@.push(
                AttrM::Type(
                    IdentM { text: partial_ret_name(id as int), span: return_type@.span },
                    return_type@,
                ),
            ),
    {
        let ghost before = self@;
        let mut text = chars_of("partial_");
        crate::names::push_dec(&mut text, id);
        let name = IdentS { text, span: return_type.span };
        let ghost av = AttrM::Type(name@, return_type@);
        self.inner.attributes.push(Attribute::Type(name, return_type));
        proof {
            assert(final(self)@ =~~= before.push(av));
        }
    }
}

/// Resolve one fixture binding against the modifier set: `default` wins,
/// then the `partial_N` for the given position, then the natural type.
pub fn resolve_fixture(
    name: &IdentS,
    args: Vec<ExprSpan>,
    modifiers: &FixtureModifiers,
    partial_pos: usize,
) -> (r: FixtureCall)
    ensures
        r@.name == name@,
        r@.args == args@.map_values(|e: ExprSpan| e@),
        r@.ret == (if first_type_of(modifiers@, default_ret_name()) is Some {
            RetM::Full(first_type_of(modifiers@, default_ret_name())->0)
        } else if first_type_of(modifiers@, partial_ret_name(partial_pos as int)) is Some {
            RetM::Partial(
                partial_pos as int,
                first_type_of(modifiers@, partial_ret_name(partial_pos as int))->0,
            )
        } else {
            RetM::Natural
        }),
{
    let ret = if let Some(t) = modifiers.extract_default_type() {
        RetOverride::Full(t.duplicate())
    } else if let Some(t) = modifiers.extract_partial_type(partial_pos) {
        RetOverride::Partial(partial_pos, t.duplicate())
    } else {
        RetOverride::Natural
    };
    FixtureCall { name: name.duplicate(), args, ret }
}

} // verus!
