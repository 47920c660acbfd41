//! The future-parameter rewrite.
//!
//! A parameter tagged as asynchronous keeps its name but its bound type
//! becomes a deferred computation whose completion yields a value of the
//! declared type. Not every declared shape can stand as that yield: an
//! anonymous group, an existential `impl` type, the inferred placeholder,
//! a macro-produced type, the uninhabited type, a slice, a trait object,
//! or verbatim tokens are rejected with a positioned diagnostic. A
//! reference without an explicit lifetime gets a fresh one, named after
//! the parameter, and every fresh lifetime is prepended to the
//! signature's generic parameter list, existing generics kept in order.
//! A repeated tag is reported once per extra occurrence; the first is
//! honored. The pass never stops early: it visits every parameter and
//! reports every failure in one list.

use vstd::prelude::*;
use crate::diag::{Diagnostic, DiagKind, DiagM};
use crate::outside::chars_of;
use crate::sig::{FnAttribute, FnAttrM, FnM, FunctionDesc, GenericM, GenericParam, ParamDesc, ParamM, TypeDesc, TypeM};
use crate::token::{chars_eq, copy_chars, extend_chars};

verus! {

/// The tag that marks a parameter as asynchronous.
pub open spec fn is_future_attr(a: FnAttrM) -> bool {
    a.name.text == "future"@
}

/// The asynchronous tags among a parameter's attributes, in order.
pub open spec fn future_tags_of(attrs: Seq<FnAttrM>) -> Seq<FnAttrM> {
    attrs.filter(|a: FnAttrM| is_future_attr(a))
}

/// A parameter's attributes with the asynchronous tags taken out.
pub open spec fn kept_attrs_of(attrs: Seq<FnAttrM>) -> Seq<FnAttrM> {
    attrs.filter(|a: FnAttrM| !is_future_attr(a))
}

/// The shapes whose values can be yielded by a deferred computation.
pub open spec fn eligible_for_future(t: TypeM) -> bool {
    t is Reference || t is Plain
}

/// The fresh lifetime synthesized for a bare reference: the parameter's
/// identifier behind an underscore.
pub open spec fn fresh_lifetime_of(name: Seq<char>) -> Seq<char> {
    seq!['_'] + name
}

pub open spec fn repeated_future_msg() -> Seq<char> {
    "cannot use future tag more than once"@
}

pub open spec fn not_eligible_msg() -> Seq<char> {
    "the declared type cannot be rewritten into a future contract"@
}

/// The report for one extra asynchronous tag, at that tag.
pub open spec fn repeated_diag_of(a: FnAttrM) -> DiagM {
    DiagM { kind: DiagKind::RepeatedFutureTag, message: repeated_future_msg(), span: a.span }
}

/// The reports for every tag after the first.
pub open spec fn extras_of(fts: Seq<FnAttrM>) -> Seq<DiagM> {
    fts.skip(1).map_values(|a: FnAttrM| repeated_diag_of(a))
}

/// The report for a shape that cannot be rewritten, at the parameter.
pub open spec fn not_eligible_diag_of(p: ParamM) -> DiagM {
    DiagM { kind: DiagKind::TypeNotEligibleForFuture, message: not_eligible_msg(), span: p.span }
}

/// The diagnostics one parameter contributes: one per extra tag, then one
/// if the declared shape is not eligible.
pub open spec fn param_future_diags(p: ParamM) -> Seq<DiagM> {
    if p.receiver {
        Seq::empty()
    } else {
        let fts = future_tags_of(p.attrs);
        let extras: Seq<DiagM> = if fts.len() > 1 {
            extras_of(fts)
        } else {
            Seq::empty()
        };
        let shape: Seq<DiagM> = if fts.len() >= 1 && !eligible_for_future(p.ty) {
            seq![not_eligible_diag_of(p)]
        } else {
            Seq::empty()
        };
        extras + shape
    }
}

/// What the parameter becomes. A receiver, or an untagged parameter, is
/// untouched. A tagged one loses its tags; if its shape is eligible it is
/// marked deferred, a bare reference getting the fresh lifetime first.
pub open spec fn rewritten_param(p: ParamM) -> ParamM {
    if p.receiver {
        p
    } else {
        let fts = future_tags_of(p.attrs);
        if fts.len() == 0 {
            p
        } else {
            let stripped = ParamM { attrs: kept_attrs_of(p.attrs), ..p };
            if !eligible_for_future(p.ty) {
                stripped
            } else {
                let ty = match p.ty {
                    TypeM::Reference { lifetime: Option::None, is_mut, elem } => TypeM::Reference {
                        lifetime: Option::Some(fresh_lifetime_of(p.name.text)),
                        is_mut,
                        elem,
                    },
                    other => other,
                };
                ParamM { ty, deferred: true, ..stripped }
            }
        }
    }
}

/// The fresh lifetime one parameter contributes, if any.
pub open spec fn param_new_lifetimes(p: ParamM) -> Seq<Seq<char>> {
    if !p.receiver && future_tags_of(p.attrs).len() >= 1 && p.ty is Reference
        && p.ty->Reference_lifetime is None {
        seq![fresh_lifetime_of(p.name.text)]
    } else {
        Seq::empty()
    }
}

pub open spec fn params_future_diags(ps: Seq<ParamM>) -> Seq<DiagM>
    decreases ps.len(),
{
    if ps.len() == 0 {
        Seq::empty()
    } else {
        param_future_diags(ps[0]) + params_future_diags(ps.drop_first())
    }
}

pub open spec fn params_new_lifetimes(ps: Seq<ParamM>) -> Seq<Seq<char>>
    decreases ps.len(),
{
    if ps.len() == 0 {
        Seq::empty()
    } else {
        param_new_lifetimes(ps[0]) + params_new_lifetimes(ps.drop_first())
    }
}

/// A fresh lifetime as a generic parameter.
pub open spec fn lift_lifetime(n: Seq<char>) -> GenericM {
    GenericM::Lifetime { name: n }
}

/// The generics after the pass: the fresh lifetimes, in reading order,
/// prepended to the declared generics.
pub open spec fn rewritten_generics(f: FnM) -> Seq<GenericM> {
    let ls = params_new_lifetimes(f.params);
    if ls.len() == 0 {
        f.generics
    } else {
        ls.map_values(|n: Seq<char>| lift_lifetime(n)) + f.generics
    }
}

pub proof fn lemma_params_future_diags_snoc(ps: Seq<ParamM>, x: ParamM)
    ensures
        params_future_diags(ps.push(x)) == params_future_diags(ps) + param_future_diags(x),
    decreases ps.len(),
{
    let s = ps.push(x);
    assert(s.len() == ps.len() + 1);
    if ps.len() == 0 {
        assert(s[0] == x);
        assert(s.drop_first() =~= Seq::<ParamM>::empty());
        assert(params_future_diags(s) == param_future_diags(s[0]) + params_future_diags(
            s.drop_first(),
        ));
        assert(params_future_diags(s.drop_first()) =~~= Seq::<DiagM>::empty());
        assert(params_future_diags(ps.push(x)) =~~= params_future_diags(ps) + param_future_diags(
            x,
        ));
    } else {
        assert(s[0] == ps[0]);
        assert(s.drop_first() =~= ps.drop_first().push(x));
        lemma_params_future_diags_snoc(ps.drop_first(), x);
        assert(params_future_diags(s) == param_future_diags(s[0]) + params_future_diags(
            s.drop_first(),
        ));
        assert(params_future_diags(ps.push(x)) =~~= params_future_diags(ps) + param_future_diags(
            x,
        ));
    }
}

pub proof fn lemma_params_new_lifetimes_snoc(ps: Seq<ParamM>, x: ParamM)
    ensures
        params_new_lifetimes(ps.push(x)) == params_new_lifetimes(ps) + param_new_lifetimes(x),
    decreases ps.len(),
{
    let s = ps.push(x);
    assert(s.len() == ps.len() + 1);
    if ps.len() == 0 {
        assert(s[0] == x);
        assert(s.drop_first() =~= Seq::<ParamM>::empty());
        assert(params_new_lifetimes(s) == param_new_lifetimes(s[0]) + params_new_lifetimes(
            s.drop_first(),
        ));
        assert(params_new_lifetimes(s.drop_first()) =~~= Seq::<Seq<char>>::empty());
        assert(params_new_lifetimes(ps.push(x)) =~~= params_new_lifetimes(ps)
            + param_new_lifetimes(x));
    } else {
        assert(s[0] == ps[0]);
        assert(s.drop_first() =~= ps.drop_first().push(x));
        lemma_params_new_lifetimes_snoc(ps.drop_first(), x);
        assert(params_new_lifetimes(s) == param_new_lifetimes(s[0]) + params_new_lifetimes(
            s.drop_first(),
        ));
        assert(params_new_lifetimes(ps.push(x)) =~~= params_new_lifetimes(ps)
            + param_new_lifetimes(x));
    }
}

/// In a list with no asynchronous tag, taking the tags out keeps the list.
proof fn lemma_kept_of_untagged(s: Seq<FnAttrM>)
    requires
        future_tags_of(s).len() == 0,
    ensures
        kept_attrs_of(s) == s,
    decreases s.len(),
{
    reveal(Seq::filter);
    if s.len() > 0 {
        assert(future_tags_of(s.drop_last()).len() <= future_tags_of(s).len());
        lemma_kept_of_untagged(s.drop_last());
        assert(kept_attrs_of(s) =~= s);
    } else {
        assert(kept_attrs_of(s) =~= s);
    }
}

/// Whether the attribute carries this name.
pub fn attr_is(a: &FnAttribute, name: &str) -> (r: bool)
    ensures
        r == (a@.name.text == name@),
{
    let n = chars_of(name);
    chars_eq(&a.name.text, &n)
}

fn type_eligible(t: &TypeDesc) -> (r: bool)
    ensures
        r == eligible_for_future(t@),
{
    match t {
        TypeDesc::Reference { .. } => true,
        TypeDesc::Plain { .. } => true,
        _ => false,
    }
}

/// The rewrite pass: the fresh lifetimes and the failures it collects.
pub struct ReplaceFutureAttribute {
    pub lifetimes: Vec<Vec<char>>,
    pub errors: Vec<Diagnostic>,
}

impl ReplaceFutureAttribute {
    /// Rewrite one parameter, collecting its diagnostics and its fresh
    /// lifetime, if any.
    pub fn visit_fn_arg_mut(&mut self, node: &mut ParamDesc)
        ensures
            final(node)@ == rewritten_param(old(node)@),
            final(self).errors@.map_values(|d: Diagnostic| d@) == old(self).errors@.map_values(
                |d: Diagnostic| d@,
            ) + param_future_diags(old(node)@),
            final(self).lifetimes@.map_values(|l: Vec<char>| l@) == old(
                self,
            ).lifetimes@.map_values(|l: Vec<char>| l@) + param_new_lifetimes(old(node)@),
    {
        if node.receiver {
            proof {
                assert(final(self).errors@.map_values(|d: Diagnostic| d@) =~~= old(
                    self,
                ).errors@.map_values(|d: Diagnostic| d@) + param_future_diags(old(node)@));
                assert(final(self).lifetimes@.map_values(|l: Vec<char>| l@) =~~= old(
                    self,
                ).lifetimes@.map_values(|l: Vec<char>| l@) + param_new_lifetimes(old(node)@));
            }
            return ;
        }
        let ghost pm = old(node)@;
        // partition the parameter's attributes into asynchronous tags and
        // the rest
        let mut rest: Vec<FnAttribute> = Vec::new();
        core::mem::swap(&mut rest, &mut node.attrs);
        let mut kept: Vec<FnAttribute> = Vec::new();
        let mut futures: Vec<FnAttribute> = Vec::new();
        let ghost all = pm.attrs;
        proof {
            assert(all.take(0) =~= Seq::<FnAttrM>::empty());
            reveal(Seq::filter);
            assert(kept@.map_values(|a: FnAttribute| a@) =~~= kept_attrs_of(all.take(0)));
            assert(futures@.map_values(|a: FnAttribute| a@) =~~= future_tags_of(all.take(0)));
        }
        let ghost mut i: int = 0;
        while rest.len() > 0
            invariant
                0 <= i,
                i + rest@.len() == all.len(),
                forall|k: int| 0 <= k < rest@.len() ==> (#[trigger] rest@[k])@ == all[i + k],
                kept@.map_values(|a: FnAttribute| a@) == kept_attrs_of(all.take(i)),
                futures@.map_values(|a: FnAttribute| a@) == future_tags_of(all.take(i)),
            decreases rest@.len(),
        {
            let ghost taken = all.take(i);
            let ghost rprev = rest@;
            let a = rest.remove(0);
            let ghost av = a@;
            proof {
                assert(av == all[i]);
            }
            let ghost kprev = kept@;
            let ghost fprev = futures@;
            let is_fut = attr_is(&a, "future");
            if is_fut {
                futures.push(a);
            } else {
                kept.push(a);
            }
            proof {
                i = i + 1;
            }
            proof {
                reveal(Seq::filter);
                assert(rest@ =~= rprev.drop_first());
                assert(forall|k: int| 0 <= k < rest@.len() ==> rest@[k] == rprev[k + 1]);
                let t1 = all.take(i);
                assert(t1.drop_last() =~= taken);
                assert(t1.last() == av);
                if is_fut {
                    assert(future_tags_of(t1) == future_tags_of(taken).push(av));
                    assert(kept_attrs_of(t1) == kept_attrs_of(taken));
                    assert(futures@.map_values(|x: FnAttribute| x@) =~~= fprev.map_values(
                        |x: FnAttribute| x@,
                    ).push(av));
                } else {
                    assert(kept_attrs_of(t1) == kept_attrs_of(taken).push(av));
                    assert(future_tags_of(t1) == future_tags_of(taken));
                    assert(kept@.map_values(|x: FnAttribute| x@) =~~= kprev.map_values(
                        |x: FnAttribute| x@,
                    ).push(av));
                }
            }
        }
        proof {
            assert(all.take(all.len() as int) =~= all);
        }
        let ghost fts = future_tags_of(all);
        let ghost errs0 = old(self).errors@.map_values(|d: Diagnostic| d@);
        if futures.len() == 0 {
            // untouched: every attribute keeps its place
            node.attrs = kept;
            proof {
                lemma_kept_of_untagged(all);
                assert(final(node)@ =~~= rewritten_param(pm));
                assert(final(self).errors@.map_values(|d: Diagnostic| d@) =~~= errs0
                    + param_future_diags(pm));
                assert(final(self).lifetimes@.map_values(|l: Vec<char>| l@) =~~= old(
                    self,
                ).lifetimes@.map_values(|l: Vec<char>| l@) + param_new_lifetimes(pm));
            }
            return ;
        }
        node.attrs = kept;
        // report every extra tag; the first is honored
        proof {
            assert(fts.subrange(1, 1).map_values(|a: FnAttrM| repeated_diag_of(a))
                =~= Seq::<DiagM>::empty());
            assert(errs0 + fts.subrange(1, 1).map_values(|a: FnAttrM| repeated_diag_of(a))
                =~= errs0);
        }
        let mut k: usize = 1;
        while k < futures.len()
            invariant
                1 <= k <= futures@.len(),
                futures@.map_values(|a: FnAttribute| a@) == fts,
                self.errors@.map_values(|d: Diagnostic| d@) == errs0 + fts.subrange(
                    1,
                    k as int,
                ).map_values(|a: FnAttrM| repeated_diag_of(a)),
                self.lifetimes == old(self).lifetimes,
            decreases futures@.len() - k,
        {
            let ghost eprev = self.errors@;
            let d = Diagnostic::new(
                DiagKind::RepeatedFutureTag,
                chars_of("cannot use future tag more than once"),
                futures[k].span,
            );
            let ghost dv = d@;
            self.errors.push(d);
            k += 1;
            proof {
                assert(dv =~~= repeated_diag_of(fts[k - 1]));
                assert(self.errors@.map_values(|d: Diagnostic| d@) =~~= eprev.map_values(
                    |d: Diagnostic| d@,
                ).push(dv));
                assert(fts.subrange(1, k as int) =~= fts.subrange(1, k - 1 as int).push(
                    fts[k - 1],
                ));
                assert(fts.subrange(1, k as int).map_values(|a: FnAttrM| repeated_diag_of(a))
                    =~~= fts.subrange(1, k - 1 as int).map_values(
                    |a: FnAttrM| repeated_diag_of(a),
                ).push(repeated_diag_of(fts[k - 1])));
                assert(self.errors@.map_values(|d: Diagnostic| d@) =~~= errs0 + fts.subrange(
                    1,
                    k as int,
                ).map_values(|a: FnAttrM| repeated_diag_of(a)));
            }
        }
        proof {
            assert(fts.subrange(1, fts.len() as int) =~= fts.skip(1));
            assert(self.errors@.map_values(|d: Diagnostic| d@) =~~= errs0 + extras_of(fts));
        }
        if !type_eligible(&node.ty) {
            let ghost eprev = self.errors@;
            let d = Diagnostic::new(
                DiagKind::TypeNotEligibleForFuture,
                chars_of("the declared type cannot be rewritten into a future contract"),
                node.span,
            );
            let ghost dv = d@;
            self.errors.push(d);
            proof {
                assert(dv =~~= not_eligible_diag_of(pm));
                assert(self.errors@.map_values(|d: Diagnostic| d@) =~~= eprev.map_values(
                    |d: Diagnostic| d@,
                ).push(dv));
                assert(final(node)@ =~~= rewritten_param(pm));
                assert(final(self).errors@.map_values(|d: Diagnostic| d@) =~~= errs0
                    + param_future_diags(pm));
                assert(final(self).lifetimes@.map_values(|l: Vec<char>| l@) =~~= old(
                    self,
                ).lifetimes@.map_values(|l: Vec<char>| l@) + param_new_lifetimes(pm));
            }
            return ;
        }
        // an eligible shape: a bare reference first gets its fresh lifetime
        let needs_lifetime = match &node.ty {
            TypeDesc::Reference { lifetime, .. } => lifetime.is_none(),
            _ => false,
        };
        if needs_lifetime {
            let mut lname: Vec<char> = Vec::new();
            lname.push('_');
            extend_chars(&mut lname, &node.name.text);
            proof {
                assert(lname@ =~= fresh_lifetime_of(pm.name.text));
            }
            let ghost lprev = self.lifetimes@;
            self.lifetimes.push(copy_chars(&lname));
            proof {
                assert(self.lifetimes@.map_values(|l: Vec<char>| l@) =~~= lprev.map_values(
                    |l: Vec<char>| l@,
                ).push(fresh_lifetime_of(pm.name.text)));
            }
            let (is_mut, elem) = match &node.ty {
                TypeDesc::Reference { is_mut, elem, .. } => (*is_mut, copy_chars(elem)),
                _ => vstd::pervasive::unreached(),
            };
            node.ty = TypeDesc::Reference { lifetime: Some(lname), is_mut, elem };
        }
        node.deferred = true;
        proof {
            assert(final(node)@ =~~= rewritten_param(pm));
            assert(final(self).errors@.map_values(|d: Diagnostic| d@) =~~= errs0
                + param_future_diags(pm));
            assert(final(self).lifetimes@.map_values(|l: Vec<char>| l@) =~~= old(
                self,
            ).lifetimes@.map_values(|l: Vec<char>| l@) + param_new_lifetimes(pm));
        }
    }
}


impl ReplaceFutureAttribute {
    /// Rewrite every tagged parameter of the signature, prepending the
    /// fresh lifetimes to its generics. The whole signature is rewritten
    /// first; the collected diagnostics, if any, are then the result.
    pub fn replace(item: &mut FunctionDesc) -> (r: Result<(), Vec<Diagnostic>>)
        ensures
            final(item)@.name == old(item)@.name,
            final(item)@.attrs == old(item)@.attrs,
            final(item)@.span == old(item)@.span,
            final(item)@.params == old(item)@.params.map_values(|p: ParamM| rewritten_param(p)),
            final(item)@.generics == rewritten_generics(old(item)@),
            match r {
                Ok(()) => params_future_diags(old(item)@.params).len() == 0,
                Err(ds) => ds@.map_values(|d: Diagnostic| d@) == params_future_diags(
                    old(item)@.params,
                ) && ds@.len() > 0,
            },
    {
        let ghost pm = old(item)@.params;
        let mut v = ReplaceFutureAttribute { lifetimes: Vec::new(), errors: Vec::new() };
        proof {
            assert(pm.take(0) =~= Seq::<ParamM>::empty());
            assert(v.errors@.map_values(|d: Diagnostic| d@) =~~= params_future_diags(pm.take(0)));
            assert(v.lifetimes@.map_values(|l: Vec<char>| l@) =~~= params_new_lifetimes(
                pm.take(0),
            ));
        }
        let mut i: usize = 0;
        while i < item.params.len()
            invariant
                i <= item.params@.len(),
                item.params@.len() == pm.len(),
                forall|k: int|
                    0 <= k < i ==> (#[trigger] item.params@[k])@ == rewritten_param(pm[k]),
                forall|k: int| i <= k < pm.len() ==> (#[trigger] item.params@[k])@ == pm[k],
                v.errors@.map_values(|d: Diagnostic| d@) == params_future_diags(pm.take(i as int)),
                v.lifetimes@.map_values(|l: Vec<char>| l@) == params_new_lifetimes(
                    pm.take(i as int),
                ),
                item.name == old(item).name,
                item.attrs == old(item).attrs,
                item.generics == old(item).generics,
                item.span == old(item).span,
            decreases item.params@.len() - i,
        {
            let ghost before = item.params@;
            let mut p = item.params.remove(i);
            proof {
                assert(p@ == pm[i as int]);
            }
            v.visit_fn_arg_mut(&mut p);
            item.params.insert(i, p);
            proof {
                assert(item.params@ =~= before.update(i as int, p));
            }
            i += 1;
            proof {
                lemma_params_future_diags_snoc(pm.take(i - 1), pm[i - 1]);
                lemma_params_new_lifetimes_snoc(pm.take(i - 1), pm[i - 1]);
                assert(pm.take(i as int) =~= pm.take(i - 1).push(pm[i - 1]));
            }
        }
        proof {
            assert(pm.take(pm.len() as int) =~= pm);
            assert(item.params@.map_values(|p: ParamDesc| p@) =~~= pm.map_values(
                |p: ParamM| rewritten_param(p),
            ));
        }
        let ghost ls = params_new_lifetimes(pm);
        if v.lifetimes.len() > 0 {
            let mut gens: Vec<GenericParam> = Vec::new();
            let mut j: usize = 0;
            while j < v.lifetimes.len()
                invariant
                    j <= v.lifetimes@.len(),
                    gens@.len() == j,
                    forall|k: int|
                        0 <= k < j ==> (#[trigger] gens@[k])@ == lift_lifetime(
                            v.lifetimes@[k]@,
                        ),
                decreases v.lifetimes@.len() - j,
            {
                gens.push(GenericParam::Lifetime { name: copy_chars(&v.lifetimes[j]) });
                j += 1;
            }
            let mut old_gens: Vec<GenericParam> = Vec::new();
            core::mem::swap(&mut old_gens, &mut item.generics);
            gens.append(&mut old_gens);
            item.generics = gens;
            proof {
                assert(v.lifetimes@.map_values(|l: Vec<char>| l@) == ls);
                assert(ls.len() > 0);
                assert(item.generics@.map_values(|g: GenericParam| g@)
                    =~~= ls.map_values(|n: Seq<char>| lift_lifetime(n)) + old(
                    item,
                ).generics@.map_values(|g: GenericParam| g@));
            }
        } else {
            proof {
                assert(ls.len() == 0);
            }
        }
        if v.errors.len() == 0 {
            proof {
                assert(params_future_diags(pm).len() == 0);
            }
            Ok(())
        } else {
            Err(v.errors)
        }
    }
}

} // verus!
