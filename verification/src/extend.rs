//! Extending an annotation with what the signature's own attributes say.
//!
//! Beyond the annotation itself, bindings ride on the signature: a
//! parameter attribute carrying positional fixture arguments becomes a
//! fixture reference for that parameter, and one carrying a single value
//! expression becomes a default value. The signature's own attributes may
//! fix the fixture's return type: one `default` attribute in full, and
//! `partial_N` attributes for the first `N` generic positions. Every
//! malformed payload, repeated declaration, or bad `partial_` suffix is
//! reported; nothing stops at the first failure, and the used attributes
//! are taken off the signature.

use vstd::prelude::*;
use crate::diag::{Diagnostic, DiagKind, DiagM, Span};
use crate::model::{ArgumentValue, ArgumentValueM, ExprM, ExprSpan, Fixture, FixtureM, IdentM};
use crate::outside::{chars_of, check_expr, check_type, expr_parses, type_parses};
use crate::parser::{parse_positional, spec_parse_args, syntax_msg, POut};
use crate::resolver::partial_ret_prefix;
use crate::sig::{FnAttribute, FnAttrM, FunctionDesc, ParamDesc, ParamM};
use crate::token::{chars_eq, leaves_text, render_leaves};

verus! {

/// The parameter attribute that binds a fixture with arguments.
pub open spec fn is_with_attr(a: FnAttrM) -> bool {
    a.name.text == "with"@
}

/// The attribute that binds a default: a value on a parameter, a return
/// type on the signature.
pub open spec fn is_default_attr(a: FnAttrM) -> bool {
    a.name.text == "default"@
}

/// The attributes carrying this name, in order.
pub open spec fn attrs_named(attrs: Seq<FnAttrM>, n: Seq<char>) -> Seq<FnAttrM> {
    attrs.filter(|a: FnAttrM| a.name.text == n)
}

/// The attributes carrying any other name, in order.
pub open spec fn attrs_not_named(attrs: Seq<FnAttrM>, n: Seq<char>) -> Seq<FnAttrM> {
    attrs.filter(|a: FnAttrM| !(a.name.text == n))
}

pub open spec fn with_attrs_of(attrs: Seq<FnAttrM>) -> Seq<FnAttrM> {
    attrs_named(attrs, "with"@)
}

pub open spec fn without_with_attrs(attrs: Seq<FnAttrM>) -> Seq<FnAttrM> {
    attrs_not_named(attrs, "with"@)
}

pub open spec fn default_attrs_of(attrs: Seq<FnAttrM>) -> Seq<FnAttrM> {
    attrs_named(attrs, "default"@)
}

pub open spec fn without_default_attrs(attrs: Seq<FnAttrM>) -> Seq<FnAttrM> {
    attrs_not_named(attrs, "default"@)
}

/// The positional arguments an attribute payload parses to.
pub open spec fn attr_args_outcome(a: FnAttrM) -> POut<Seq<ExprM>> {
    match a.payload {
        crate::sig::PayloadM::Tokens(toks) => spec_parse_args(toks, 0),
        crate::sig::PayloadM::Empty => POut::Failed { sp: a.span },
    }
}

/// The fixture one well-formed attribute contributes.
pub open spec fn fixture_of_attr(pname: IdentM, a: FnAttrM) -> Seq<FixtureM> {
    match attr_args_outcome(a) {
        POut::Parsed { v, .. } => seq![FixtureM { name: pname, positional: v }],
        POut::Failed { .. } => Seq::empty(),
    }
}

pub open spec fn fixture_diag_of_attr(a: FnAttrM) -> Seq<DiagM> {
    match attr_args_outcome(a) {
        POut::Parsed { .. } => Seq::empty(),
        POut::Failed { sp } => seq![DiagM { kind: DiagKind::Syntax, message: syntax_msg(), span: sp }],
    }
}

pub open spec fn fixtures_upto(pname: IdentM, ws: Seq<FnAttrM>, n: int) -> Seq<FixtureM>
    decreases n,
{
    if n <= 0 {
        Seq::empty()
    } else {
        fixtures_upto(pname, ws, n - 1) + fixture_of_attr(pname, ws[n - 1])
    }
}

pub open spec fn fixture_diags_upto(ws: Seq<FnAttrM>, n: int) -> Seq<DiagM>
    decreases n,
{
    if n <= 0 {
        Seq::empty()
    } else {
        fixture_diags_upto(ws, n - 1) + fixture_diag_of_attr(ws[n - 1])
    }
}

/// The single value expression an attribute payload carries, if well
/// formed.
pub open spec fn value_outcome(a: FnAttrM) -> Option<ExprM> {
    match a.payload {
        crate::sig::PayloadM::Tokens(toks) => if toks.len() > 0 && expr_parses(leaves_text(toks)) {
            Option::Some(ExprM { text: leaves_text(toks), span: a.span })
        } else {
            Option::None
        },
        crate::sig::PayloadM::Empty => Option::None,
    }
}

/// The declared type an attribute payload carries, if well formed.
pub open spec fn type_outcome(a: FnAttrM) -> Option<ExprM> {
    match a.payload {
        crate::sig::PayloadM::Tokens(toks) => if toks.len() > 0 && type_parses(leaves_text(toks)) {
            Option::Some(ExprM { text: leaves_text(toks), span: a.span })
        } else {
            Option::None
        },
        crate::sig::PayloadM::Empty => Option::None,
    }
}

pub open spec fn value_of_attr(pname: IdentM, a: FnAttrM) -> Seq<ArgumentValueM> {
    match value_outcome(a) {
        Option::Some(e) => seq![ArgumentValueM { name: pname, expr: e }],
        Option::None => Seq::empty(),
    }
}

pub open spec fn value_diag_of_attr(a: FnAttrM) -> Seq<DiagM> {
    match value_outcome(a) {
        Option::Some(_) => Seq::empty(),
        Option::None => seq![
            DiagM { kind: DiagKind::Syntax, message: syntax_msg(), span: a.span },
        ],
    }
}

pub open spec fn values_upto(pname: IdentM, ds: Seq<FnAttrM>, n: int) -> Seq<ArgumentValueM>
    decreases n,
{
    if n <= 0 {
        Seq::empty()
    } else {
        values_upto(pname, ds, n - 1) + value_of_attr(pname, ds[n - 1])
    }
}

pub open spec fn value_diags_upto(ds: Seq<FnAttrM>, n: int) -> Seq<DiagM>
    decreases n,
{
    if n <= 0 {
        Seq::empty()
    } else {
        value_diags_upto(ds, n - 1) + value_diag_of_attr(ds[n - 1])
    }
}

// ---------------------------------------------------------------- per param

/// What a parameter's attributes contribute as fixtures.
pub open spec fn param_fixtures(p: ParamM) -> Seq<FixtureM> {
    if p.receiver {
        Seq::empty()
    } else {
        let ws = with_attrs_of(p.attrs);
        fixtures_upto(p.name, ws, ws.len() as int)
    }
}

pub open spec fn param_fixture_diags(p: ParamM) -> Seq<DiagM> {
    if p.receiver {
        Seq::empty()
    } else {
        let ws = with_attrs_of(p.attrs);
        fixture_diags_upto(ws, ws.len() as int)
    }
}

/// The parameter with its fixture-binding attributes taken off.
pub open spec fn strip_with(p: ParamM) -> ParamM {
    if p.receiver {
        p
    } else {
        ParamM { attrs: without_with_attrs(p.attrs), ..p }
    }
}

/// What a parameter's attributes contribute as default values.
pub open spec fn param_values(p: ParamM) -> Seq<ArgumentValueM> {
    if p.receiver {
        Seq::empty()
    } else {
        let ds = default_attrs_of(p.attrs);
        values_upto(p.name, ds, ds.len() as int)
    }
}

pub open spec fn param_value_diags(p: ParamM) -> Seq<DiagM> {
    if p.receiver {
        Seq::empty()
    } else {
        let ds = default_attrs_of(p.attrs);
        value_diags_upto(ds, ds.len() as int)
    }
}

/// The parameter with its default-value attributes taken off.
pub open spec fn strip_default(p: ParamM) -> ParamM {
    if p.receiver {
        p
    } else {
        ParamM { attrs: without_default_attrs(p.attrs), ..p }
    }
}

// ------------------------------------------------------------- the visitors

fn syntax_diag_at(sp: Span) -> (d: Diagnostic)
    ensures
        d@ == (DiagM { kind: DiagKind::Syntax, message: syntax_msg(), span: sp }),
{
    Diagnostic::new(DiagKind::Syntax, chars_of("malformed annotation"), sp)
}

/// Visits the parameters and collects their fixture bindings, and any
/// parsing failures, taking the used attributes off.
pub struct FixturesFunctionExtractor(pub Vec<Fixture>, pub Vec<Diagnostic>);

/// Visits the parameters and collects their default values, and any
/// parsing failures, taking the used attributes off.
pub struct DefaultsFunctionExtractor(pub Vec<ArgumentValue>, pub Vec<Diagnostic>);

/// Split a parameter's attributes on a name; the matching ones come back,
/// the rest go back on the parameter.
fn split_attrs(node: &mut ParamDesc, name: &str) -> (r: Vec<FnAttribute>)
    requires
        !old(node).receiver,
    ensures
        final(node).receiver == old(node).receiver,
        final(node)@.name == old(node)@.name,
        final(node)@.ty == old(node)@.ty,
        final(node)@.deferred == old(node)@.deferred,
        final(node)@.span == old(node)@.span,
        final(node)@.attrs == attrs_not_named(old(node)@.attrs, name@),
        r@.map_values(|a: FnAttribute| a@) == attrs_named(old(node)@.attrs, name@),
{
    let ghost all = old(node)@.attrs;
    let mut rest: Vec<FnAttribute> = Vec::new();
    core::mem::swap(&mut rest, &mut node.attrs);
    let mut kept: Vec<FnAttribute> = Vec::new();
    let mut matched: Vec<FnAttribute> = Vec::new();
    proof {
        assert(all.take(0) =~= Seq::<FnAttrM>::empty());
        reveal(Seq::filter);
        assert(kept@.map_values(|a: FnAttribute| a@) =~~= attrs_not_named(all.take(0), name@));
        assert(matched@.map_values(|a: FnAttribute| a@) =~~= attrs_named(all.take(0), name@));
    }
    let ghost mut i: int = 0;
    while rest.len() > 0
        invariant
            0 <= i,
            i + rest@.len() == all.len(),
            forall|k: int| 0 <= k < rest@.len() ==> (#[trigger] rest@[k])@ == all[i + k],
            kept@.map_values(|a: FnAttribute| a@) == attrs_not_named(all.take(i), name@),
            matched@.map_values(|a: FnAttribute| a@) == attrs_named(all.take(i), name@),
        decreases rest@.len(),
    {
        let ghost taken = all.take(i);
        let ghost rprev = rest@;
        let a = rest.remove(0);
        let ghost av = a@;
        proof {
            assert(av == all[i]);
        }
        let ghost kprev = kept@;
        let ghost mprev = matched@;
        let is_match = crate::future::attr_is(&a, name);
        if is_match {
            matched.push(a);
        } else {
            kept.push(a);
        }
        proof {
            i = i + 1;
        }
        proof {
            reveal(Seq::filter);
            assert(rest@ =~= rprev.drop_first());
            assert(forall|k: int| 0 <= k < rest@.len() ==> rest@[k] == rprev[k + 1]);
            let t1 = all.take(i);
            assert(t1.drop_last() =~= taken);
            assert(t1.last() == av);
            if is_match {
                assert(attrs_named(t1, name@) == attrs_named(taken, name@).push(av));
                assert(attrs_not_named(t1, name@) == attrs_not_named(taken, name@));
                assert(matched@.map_values(|x: FnAttribute| x@) =~~= mprev.map_values(
                    |x: FnAttribute| x@,
                ).push(av));
            } else {
                assert(attrs_not_named(t1, name@) == attrs_not_named(taken, name@).push(av));
                assert(attrs_named(t1, name@) == attrs_named(taken, name@));
                assert(kept@.map_values(|x: FnAttribute| x@) =~~= kprev.map_values(
                    |x: FnAttribute| x@,
                ).push(av));
            }
        }
    }
    proof {
        assert(all.take(all.len() as int) =~= all);
    }
    node.attrs = kept;
    matched
}

impl FixturesFunctionExtractor {
    /// Collect the fixture bindings one parameter's attributes declare,
    /// taking them off the parameter.
    pub fn visit_fn_arg_mut(&mut self, node: &mut ParamDesc)
        ensures
            final(node)@ == strip_with(old(node)@),
            final(self).0@.map_values(|f: Fixture| f@) == old(self).0@.map_values(
                |f: Fixture| f@,
            ) + param_fixtures(old(node)@),
            final(self).1@.map_values(|d: Diagnostic| d@) == old(self).1@.map_values(
                |d: Diagnostic| d@,
            ) + param_fixture_diags(old(node)@),
    {
        if node.receiver {
            proof {
                assert(final(self).0@.map_values(|f: Fixture| f@) =~~= old(self).0@.map_values(
                    |f: Fixture| f@,
                ) + param_fixtures(old(node)@));
                assert(final(self).1@.map_values(|d: Diagnostic| d@) =~~= old(
                    self,
                ).1@.map_values(|d: Diagnostic| d@) + param_fixture_diags(old(node)@));
            }
            return ;
        }
        let ghost pm = old(node)@;
        let withs = split_attrs(node, "with");
        let ghost ws = with_attrs_of(pm.attrs);
        proof {
            assert(node@ =~~= strip_with(pm));
        }
        let ghost fx0 = old(self).0@.map_values(|f: Fixture| f@);
        let ghost dg0 = old(self).1@.map_values(|d: Diagnostic| d@);
        proof {
            assert(self.0@.map_values(|f: Fixture| f@) =~~= fx0 + fixtures_upto(pm.name, ws, 0));
            assert(self.1@.map_values(|d: Diagnostic| d@) =~~= dg0 + fixture_diags_upto(ws, 0));
        }
        let mut w: usize = 0;
        while w < withs.len()
            invariant
                w <= withs@.len(),
                withs@.map_values(|a: FnAttribute| a@) == ws,
                self.0@.map_values(|f: Fixture| f@) == fx0 + fixtures_upto(
                    pm.name,
                    ws,
                    w as int,
                ),
                self.1@.map_values(|d: Diagnostic| d@) == dg0 + fixture_diags_upto(
                    ws,
                    w as int,
                ),
                node@ == strip_with(pm),
            decreases withs@.len() - w,
        {
            let ghost fprev = self.0@;
            let ghost dprev = self.1@;
            proof {
                assert(ws[w as int] == withs@[w as int]@);
            }
            match &withs[w].payload {
                crate::sig::AttrPayload::Tokens(toks) => {
                    match parse_positional(toks, 0) {
                        Ok(args) => {
                            let fx = Fixture::new(node.name.duplicate(), args);
                            let ghost fv = fx@;
                            self.0.push(fx);
                            proof {
                                assert(node@.name == pm.name);
                                assert(fv =~~= fixture_of_attr(pm.name, ws[w as int])[0]);
                                assert(self.0@.map_values(|f: Fixture| f@) =~~= fprev.map_values(
                                    |f: Fixture| f@,
                                ).push(fv));
                            }
                        },
                        Err(d) => {
                            let ghost dv = d@;
                            self.1.push(d);
                            proof {
                                assert(dv =~~= fixture_diag_of_attr(ws[w as int])[0]);
                                assert(self.1@.map_values(|x: Diagnostic| x@) =~~= dprev.map_values(
                                    |x: Diagnostic| x@,
                                ).push(dv));
                            }
                        },
                    }
                },
                crate::sig::AttrPayload::Empty => {
                    let d = syntax_diag_at(withs[w].span);
                    let ghost dv = d@;
                    self.1.push(d);
                    proof {
                        assert(dv =~~= fixture_diag_of_attr(ws[w as int])[0]);
                        assert(self.1@.map_values(|x: Diagnostic| x@) =~~= dprev.map_values(
                            |x: Diagnostic| x@,
                        ).push(dv));
                    }
                },
            }
            w += 1;
            proof {
                assert(self.0@.map_values(|f: Fixture| f@) =~~= fx0 + fixtures_upto(
                    pm.name,
                    ws,
                    w as int,
                ));
                assert(self.1@.map_values(|d: Diagnostic| d@) =~~= dg0 + fixture_diags_upto(
                    ws,
                    w as int,
                ));
            }
        }
        proof {
            assert(fixtures_upto(pm.name, ws, ws.len() as int) == param_fixtures(pm));
            assert(fixture_diags_upto(ws, ws.len() as int) == param_fixture_diags(pm));
        }
    }
}

impl DefaultsFunctionExtractor {
    /// Collect the default values one parameter's attributes declare,
    /// taking them off the parameter.
    pub fn visit_fn_arg_mut(&mut self, node: &mut ParamDesc)
        ensures
            final(node)@ == strip_default(old(node)@),
            final(self).0@.map_values(|v: ArgumentValue| v@) == old(self).0@.map_values(
                |v: ArgumentValue| v@,
            ) + param_values(old(node)@),
            final(self).1@.map_values(|d: Diagnostic| d@) == old(self).1@.map_values(
                |d: Diagnostic| d@,
            ) + param_value_diags(old(node)@),
    {
        if node.receiver {
            proof {
                assert(final(self).0@.map_values(|v: ArgumentValue| v@) =~~= old(
                    self,
                ).0@.map_values(|v: ArgumentValue| v@) + param_values(old(node)@));
                assert(final(self).1@.map_values(|d: Diagnostic| d@) =~~= old(
                    self,
                ).1@.map_values(|d: Diagnostic| d@) + param_value_diags(old(node)@));
            }
            return ;
        }
        let ghost pm = old(node)@;
        let defs = split_attrs(node, "default");
        let ghost ds = default_attrs_of(pm.attrs);
        proof {
            assert(node@ =~~= strip_default(pm));
        }
        let ghost vx0 = old(self).0@.map_values(|v: ArgumentValue| v@);
        let ghost dg0 = old(self).1@.map_values(|d: Diagnostic| d@);
        proof {
            assert(self.0@.map_values(|v: ArgumentValue| v@) =~~= vx0 + values_upto(
                pm.name,
                ds,
                0,
            ));
            assert(self.1@.map_values(|d: Diagnostic| d@) =~~= dg0 + value_diags_upto(ds, 0));
        }
        let mut w: usize = 0;
        while w < defs.len()
            invariant
                w <= defs@.len(),
                defs@.map_values(|a: FnAttribute| a@) == ds,
                self.0@.map_values(|v: ArgumentValue| v@) == vx0 + values_upto(
                    pm.name,
                    ds,
                    w as int,
                ),
                self.1@.map_values(|d: Diagnostic| d@) == dg0 + value_diags_upto(ds, w as int),
                node@ == strip_default(pm),
            decreases defs@.len() - w,
        {
            let ghost vprev = self.0@;
            let ghost dprev = self.1@;
            proof {
                assert(ds[w as int] == defs@[w as int]@);
            }
            let mut good: Option<ExprSpan> = None;
            match &defs[w].payload {
                crate::sig::AttrPayload::Tokens(toks) => {
                    if toks.len() > 0 {
                        let text = render_leaves(toks, 0, toks.len());
                        proof {
                            assert(toks@.subrange(0, toks@.len() as int) =~= toks@);
                        }
                        if check_expr(&text) {
                            good = Some(ExprSpan { text, span: defs[w].span });
                        }
                    }
                },
                crate::sig::AttrPayload::Empty => (),
            }
            match good {
                Some(e) => {
                    let ghost ev = e@;
                    let v = ArgumentValue::new(node.name.duplicate(), e);
                    let ghost vv = v@;
                    self.0.push(v);
                    proof {
                        assert(node@.name == pm.name);
                        assert(value_outcome(ds[w as int]) == Option::Some(ev));
                        assert(vv =~~= value_of_attr(pm.name, ds[w as int])[0]);
                        assert(self.0@.map_values(|x: ArgumentValue| x@) =~~= vprev.map_values(
                            |x: ArgumentValue| x@,
                        ).push(vv));
                    }
                },
                None => {
                    let d = syntax_diag_at(defs[w].span);
                    let ghost dv = d@;
                    self.1.push(d);
                    proof {
                        assert(value_outcome(ds[w as int]) is None);
                        assert(dv =~~= value_diag_of_attr(ds[w as int])[0]);
                        assert(self.1@.map_values(|x: Diagnostic| x@) =~~= dprev.map_values(
                            |x: Diagnostic| x@,
                        ).push(dv));
                    }
                },
            }
            w += 1;
            proof {
                assert(self.0@.map_values(|v: ArgumentValue| v@) =~~= vx0 + values_upto(
                    pm.name,
                    ds,
                    w as int,
                ));
                assert(self.1@.map_values(|d: Diagnostic| d@) =~~= dg0 + value_diags_upto(
                    ds,
                    w as int,
                ));
            }
        }
        proof {
            assert(values_upto(pm.name, ds, ds.len() as int) == param_values(pm));
            assert(value_diags_upto(ds, ds.len() as int) == param_value_diags(pm));
        }
    }
}


// ------------------------------------------------- signature-level overrides

/// One partial-specialization override read off the signature.
#[derive(Debug)]
pub struct PartialOverride {
    pub pos: usize,
    pub ty: ExprSpan,
}

#[verifier::ext_equal]
pub struct PartialM {
    pub pos: int,
    pub ty: ExprM,
}

impl View for PartialOverride {
    type V = PartialM;

    open spec fn view(&self) -> PartialM {
        PartialM { pos: self.pos as int, ty: self.ty@ }
    }
}

/// A `partial_…`-named attribute, whatever its suffix.
pub open spec fn is_partial_attr(a: FnAttrM) -> bool {
    a.name.text.len() >= partial_ret_prefix().len() && a.name.text.take(
        partial_ret_prefix().len() as int,
    ) == partial_ret_prefix()
}

pub open spec fn partial_attrs_of(attrs: Seq<FnAttrM>) -> Seq<FnAttrM> {
    attrs.filter(|a: FnAttrM| is_partial_attr(a))
}

pub open spec fn without_partial_attrs(attrs: Seq<FnAttrM>) -> Seq<FnAttrM> {
    attrs.filter(|a: FnAttrM| !is_partial_attr(a))
}

pub open spec fn default_twice_msg() -> Seq<char> {
    "cannot use default more than once"@
}

pub open spec fn partial_twice_msg() -> Seq<char> {
    "cannot use partial more than once"@
}

pub open spec fn invalid_partial_msg() -> Seq<char> {
    "invalid partial syntax"@
}

/// The report of the signature's `default` return-type declarations:
/// nothing, or exactly one repeated-declaration diagnostic at the second,
/// or a syntax diagnostic when the single payload is not a type.
pub open spec fn default_ret_diags(attrs: Seq<FnAttrM>) -> Seq<DiagM> {
    let ds = default_attrs_of(attrs);
    if ds.len() == 0 {
        Seq::empty()
    } else if ds.len() > 1 {
        seq![
            DiagM {
                kind: DiagKind::RepeatedDefaultOrPartial,
                message: default_twice_msg(),
                span: ds[1].span,
            },
        ]
    } else {
        match type_outcome(ds[0]) {
            Option::Some(_) => Seq::empty(),
            Option::None => seq![
                DiagM { kind: DiagKind::Syntax, message: syntax_msg(), span: ds[0].span },
            ],
        }
    }
}

/// The full-specialization return type, when declared once and well.
pub open spec fn default_ret_value(attrs: Seq<FnAttrM>) -> Option<ExprM> {
    let ds = default_attrs_of(attrs);
    if ds.len() == 1 {
        type_outcome(ds[0])
    } else {
        Option::None
    }
}

pub open spec fn partial_suffix(a: FnAttrM) -> Seq<char> {
    a.name.text.skip(partial_ret_prefix().len() as int)
}

/// A valid suffix: nonempty, all digits, and a position the machine holds.
pub open spec fn partial_suffix_ok(a: FnAttrM) -> bool {
    &&& partial_suffix(a).len() > 0
    &&& crate::names::all_digits(partial_suffix(a))
    &&& crate::names::digits_val(partial_suffix(a)) <= usize::MAX
}

pub open spec fn partial_pos_of(a: FnAttrM) -> int {
    crate::names::digits_val(partial_suffix(a)) as int
}

pub open spec fn same_partial_before(ps: Seq<FnAttrM>, i: int) -> bool {
    exists|j: int| 0 <= j < i && ps[j].name.text == ps[i].name.text
}

/// The report one `partial_…` attribute earns, among the signature's
/// `partial_…` attributes: a bad or oversized suffix is invalid partial
/// syntax (`gc` counts the generic type positions); the same position
/// declared again is a repeated declaration; a payload that is not a type
/// is a syntax failure.
pub open spec fn partial_diag(ps: Seq<FnAttrM>, gc: int, i: int) -> Seq<DiagM> {
    if !partial_suffix_ok(ps[i]) || partial_pos_of(ps[i]) > gc {
        seq![
            DiagM {
                kind: DiagKind::InvalidPartialSyntax,
                message: invalid_partial_msg(),
                span: ps[i].span,
            },
        ]
    } else if same_partial_before(ps, i) {
        seq![
            DiagM {
                kind: DiagKind::RepeatedDefaultOrPartial,
                message: partial_twice_msg(),
                span: ps[i].span,
            },
        ]
    } else {
        match type_outcome(ps[i]) {
            Option::Some(_) => Seq::empty(),
            Option::None => seq![
                DiagM { kind: DiagKind::Syntax, message: syntax_msg(), span: ps[i].span },
            ],
        }
    }
}

pub open spec fn partial_diags_upto(ps: Seq<FnAttrM>, gc: int, n: int) -> Seq<DiagM>
    decreases n,
{
    if n <= 0 {
        Seq::empty()
    } else {
        partial_diags_upto(ps, gc, n - 1) + partial_diag(ps, gc, n - 1)
    }
}

pub open spec fn partial_entry(ps: Seq<FnAttrM>, gc: int, i: int) -> Seq<PartialM> {
    if partial_diag(ps, gc, i).len() == 0 {
        seq![PartialM { pos: partial_pos_of(ps[i]), ty: type_outcome(ps[i])->0 }]
    } else {
        Seq::empty()
    }
}

pub open spec fn partials_upto(ps: Seq<FnAttrM>, gc: int, n: int) -> Seq<PartialM>
    decreases n,
{
    if n <= 0 {
        Seq::empty()
    } else {
        partials_upto(ps, gc, n - 1) + partial_entry(ps, gc, n - 1)
    }
}

pub open spec fn is_type_param(g: crate::sig::GenericM) -> bool {
    g is TypeParam
}

/// How many generic type positions the signature declares.
pub open spec fn type_param_count(gs: Seq<crate::sig::GenericM>) -> int {
    gs.filter(|g: crate::sig::GenericM| is_type_param(g)).len() as int
}

// ------------------------------------------------------ fn-attr extraction

/// Split the signature's attributes on a name; the matching ones come
/// back, the rest stay.
fn split_fn_attrs_named(item: &mut FunctionDesc, name: &str) -> (r: Vec<FnAttribute>)
    ensures
        final(item)@.name == old(item)@.name,
        final(item)@.generics == old(item)@.generics,
        final(item)@.params == old(item)@.params,
        final(item)@.span == old(item)@.span,
        final(item)@.attrs == attrs_not_named(old(item)@.attrs, name@),
        r@.map_values(|a: FnAttribute| a@) == attrs_named(old(item)@.attrs, name@),
{
    let ghost all = old(item)@.attrs;
    let mut rest: Vec<FnAttribute> = Vec::new();
    core::mem::swap(&mut rest, &mut item.attrs);
    let mut kept: Vec<FnAttribute> = Vec::new();
    let mut matched: Vec<FnAttribute> = Vec::new();
    proof {
        assert(all.take(0) =~= Seq::<FnAttrM>::empty());
        reveal(Seq::filter);
        assert(kept@.map_values(|a: FnAttribute| a@) =~~= attrs_not_named(all.take(0), name@));
        assert(matched@.map_values(|a: FnAttribute| a@) =~~= attrs_named(all.take(0), name@));
    }
    let ghost mut i: int = 0;
    while rest.len() > 0
        invariant
            0 <= i,
            i + rest@.len() == all.len(),
            forall|k: int| 0 <= k < rest@.len() ==> (#[trigger] rest@[k])@ == all[i + k],
            kept@.map_values(|a: FnAttribute| a@) == attrs_not_named(all.take(i), name@),
            matched@.map_values(|a: FnAttribute| a@) == attrs_named(all.take(i), name@),
        decreases rest@.len(),
    {
        let ghost taken = all.take(i);
        let ghost rprev = rest@;
        let a = rest.remove(0);
        let ghost av = a@;
        proof {
            assert(av == all[i]);
        }
        let ghost kprev = kept@;
        let ghost mprev = matched@;
        let is_match = crate::future::attr_is(&a, name);
        if is_match {
            matched.push(a);
        } else {
            kept.push(a);
        }
        proof {
            i = i + 1;
        }
        proof {
            reveal(Seq::filter);
            assert(rest@ =~= rprev.drop_first());
            assert(forall|k: int| 0 <= k < rest@.len() ==> rest@[k] == rprev[k + 1]);
            let t1 = all.take(i);
            assert(t1.drop_last() =~= taken);
            assert(t1.last() == av);
            if is_match {
                assert(attrs_named(t1, name@) == attrs_named(taken, name@).push(av));
                assert(attrs_not_named(t1, name@) == attrs_not_named(taken, name@));
                assert(matched@.map_values(|x: FnAttribute| x@) =~~= mprev.map_values(
                    |x: FnAttribute| x@,
                ).push(av));
            } else {
                assert(attrs_not_named(t1, name@) == attrs_not_named(taken, name@).push(av));
                assert(attrs_named(t1, name@) == attrs_named(taken, name@));
                assert(kept@.map_values(|x: FnAttribute| x@) =~~= kprev.map_values(
                    |x: FnAttribute| x@,
                ).push(av));
            }
        }
    }
    proof {
        assert(all.take(all.len() as int) =~= all);
    }
    item.attrs = kept;
    matched
}

/// Whether `v` starts with `p`.
fn has_prefix(v: &Vec<char>, p: &Vec<char>) -> (r: bool)
    ensures
        r == (v@.len() >= p@.len() && v@.take(p@.len() as int) == p@),
{
    if v.len() < p.len() {
        return false;
    }
    let mut i: usize = 0;
    while i < p.len()
        invariant
            i <= p@.len() <= v@.len(),
            forall|k: int| 0 <= k < i ==> v@[k] == p@[k],
        decreases p@.len() - i,
    {
        if v[i] != p[i] {
            proof {
                assert(v@.take(p@.len() as int)[i as int] != p@[i as int]);
            }
            return false;
        }
        i += 1;
    }
    proof {
        assert(v@.take(p@.len() as int) =~= p@);
    }
    true
}

fn attr_is_partial(a: &FnAttribute) -> (r: bool)
    ensures
        r == is_partial_attr(a@),
{
    let p = chars_of("partial_");
    has_prefix(&a.name.text, &p)
}

/// Split the signature's attributes into the `partial_…`-named ones and
/// the rest.
fn split_fn_attrs_partial(item: &mut FunctionDesc) -> (r: Vec<FnAttribute>)
    ensures
        final(item)@.name == old(item)@.name,
        final(item)@.generics == old(item)@.generics,
        final(item)@.params == old(item)@.params,
        final(item)@.span == old(item)@.span,
        final(item)@.attrs == without_partial_attrs(old(item)@.attrs),
        r@.map_values(|a: FnAttribute| a@) == partial_attrs_of(old(item)@.attrs),
{
    let ghost all = old(item)@.attrs;
    let mut rest: Vec<FnAttribute> = Vec::new();
    core::mem::swap(&mut rest, &mut item.attrs);
    let mut kept: Vec<FnAttribute> = Vec::new();
    let mut matched: Vec<FnAttribute> = Vec::new();
    proof {
        assert(all.take(0) =~= Seq::<FnAttrM>::empty());
        reveal(Seq::filter);
        assert(kept@.map_values(|a: FnAttribute| a@) =~~= without_partial_attrs(all.take(0)));
        assert(matched@.map_values(|a: FnAttribute| a@) =~~= partial_attrs_of(all.take(0)));
    }
    let ghost mut i: int = 0;
    while rest.len() > 0
        invariant
            0 <= i,
            i + rest@.len() == all.len(),
            forall|k: int| 0 <= k < rest@.len() ==> (#[trigger] rest@[k])@ == all[i + k],
            kept@.map_values(|a: FnAttribute| a@) == without_partial_attrs(all.take(i)),
            matched@.map_values(|a: FnAttribute| a@) == partial_attrs_of(all.take(i)),
        decreases rest@.len(),
    {
        let ghost taken = all.take(i);
        let ghost rprev = rest@;
        let a = rest.remove(0);
        let ghost av = a@;
        proof {
            assert(av == all[i]);
        }
        let ghost kprev = kept@;
        let ghost mprev = matched@;
        let is_match = attr_is_partial(&a);
        if is_match {
            matched.push(a);
        } else {
            kept.push(a);
        }
        proof {
            i = i + 1;
        }
        proof {
            reveal(Seq::filter);
            assert(rest@ =~= rprev.drop_first());
            assert(forall|k: int| 0 <= k < rest@.len() ==> rest@[k] == rprev[k + 1]);
            let t1 = all.take(i);
            assert(t1.drop_last() =~= taken);
            assert(t1.last() == av);
            if is_match {
                assert(partial_attrs_of(t1) == partial_attrs_of(taken).push(av));
                assert(without_partial_attrs(t1) == without_partial_attrs(taken));
                assert(matched@.map_values(|x: FnAttribute| x@) =~~= mprev.map_values(
                    |x: FnAttribute| x@,
                ).push(av));
            } else {
                assert(without_partial_attrs(t1) == without_partial_attrs(taken).push(av));
                assert(partial_attrs_of(t1) == partial_attrs_of(taken));
                assert(kept@.map_values(|x: FnAttribute| x@) =~~= kprev.map_values(
                    |x: FnAttribute| x@,
                ).push(av));
            }
        }
    }
    proof {
        assert(all.take(all.len() as int) =~= all);
    }
    item.attrs = kept;
    matched
}

/// The payload of an attribute as a declared type, if it is one.
fn read_type_payload(a: &FnAttribute) -> (r: Option<ExprSpan>)
    ensures
        ({
            match r {
                Some(t) => type_outcome(a@) == Option::Some(t@),
                None => type_outcome(a@) is None,
            }
        }),
{
    match &a.payload {
        crate::sig::AttrPayload::Tokens(toks) => {
            if toks.len() > 0 {
                let text = render_leaves(toks, 0, toks.len());
                proof {
                    assert(toks@.subrange(0, toks@.len() as int) =~= toks@);
                }
                if check_type(&text) {
                    Some(ExprSpan { text, span: a.span })
                } else {
                    None
                }
            } else {
                None
            }
        },
        crate::sig::AttrPayload::Empty => None,
    }
}

/// The signature's `default` return-type override: at most one, and its
/// payload must be a type; the used attributes are taken off.
pub fn extract_default_return_type(item: &mut FunctionDesc) -> (r: Result<
    Option<ExprSpan>,
    Vec<Diagnostic>,
>)
    ensures
        final(item)@.name == old(item)@.name,
        final(item)@.generics == old(item)@.generics,
        final(item)@.params == old(item)@.params,
        final(item)@.span == old(item)@.span,
        final(item)@.attrs == without_default_attrs(old(item)@.attrs),
        ({
            let ds = default_ret_diags(old(item)@.attrs);
            match r {
                Ok(opt) => ds.len() == 0 && (match opt {
                    Some(t) => default_ret_value(old(item)@.attrs) == Option::Some(t@),
                    None => default_ret_value(old(item)@.attrs) is None,
                }),
                Err(es) => es@.map_values(|d: Diagnostic| d@) == ds && ds.len() > 0,
            }
        }),
{
    let ghost a0 = old(item)@.attrs;
    let ds = split_fn_attrs_named(item, "default");
    if ds.len() == 0 {
        Ok(None)
    } else if ds.len() > 1 {
        proof {
            assert(default_attrs_of(a0)[1] == ds@[1]@);
        }
        let d = Diagnostic::new(
            DiagKind::RepeatedDefaultOrPartial,
            chars_of("cannot use default more than once"),
            ds[1].span,
        );
        let mut es: Vec<Diagnostic> = Vec::new();
        es.push(d);
        proof {
            assert(es@.map_values(|d: Diagnostic| d@) =~~= default_ret_diags(a0));
        }
        Err(es)
    } else {
        proof {
            assert(default_attrs_of(a0)[0] == ds@[0]@);
        }
        match read_type_payload(&ds[0]) {
            Some(t) => Ok(Some(t)),
            None => {
                let d = syntax_diag_at(ds[0].span);
                let mut es: Vec<Diagnostic> = Vec::new();
                es.push(d);
                proof {
                    assert(es@.map_values(|d: Diagnostic| d@) =~~= default_ret_diags(a0));
                }
                Err(es)
            },
        }
    }
}

fn count_type_params(gs: &Vec<crate::sig::GenericParam>) -> (r: usize)
    ensures
        r as int == type_param_count(gs@.map_values(|g: crate::sig::GenericParam| g@)),
{
    let ghost gm = gs@.map_values(|g: crate::sig::GenericParam| g@);
    let mut count: usize = 0;
    proof {
        reveal(Seq::filter);
        assert(gm.take(0) =~= Seq::<crate::sig::GenericM>::empty());
        assert(gm.take(0).filter(|g: crate::sig::GenericM| is_type_param(g)).len() == 0);
    }
    let mut i: usize = 0;
    while i < gs.len()
        invariant
            i <= gs@.len(),
            gm == gs@.map_values(|g: crate::sig::GenericParam| g@),
            count as int == gm.take(i as int).filter(
                |g: crate::sig::GenericM| is_type_param(g),
            ).len(),
            count <= i,
        decreases gs@.len() - i,
    {
        let ghost taken = gm.take(i as int);
        let is_ty = match &gs[i] {
            crate::sig::GenericParam::TypeParam { .. } => true,
            _ => false,
        };
        if is_ty {
            count += 1;
        }
        i += 1;
        proof {
            reveal(Seq::filter);
            let t1 = gm.take(i as int);
            assert(t1.drop_last() =~= taken);
            assert(t1.last() == gm[i - 1]);
            assert(gm[i - 1] == gs@[i - 1]@);
        }
    }
    proof {
        assert(gm.take(gm.len() as int) =~= gm);
    }
    count
}

/// The signature's `partial_N` return-type overrides: every suffix a
/// valid position within the generic type positions, no position twice,
/// every payload a type; the used attributes are taken off and every
/// failure is reported.
pub fn extract_partials_return_type(item: &mut FunctionDesc) -> (r: Result<
    Vec<PartialOverride>,
    Vec<Diagnostic>,
>)
    ensures
        final(item)@.name == old(item)@.name,
        final(item)@.generics == old(item)@.generics,
        final(item)@.params == old(item)@.params,
        final(item)@.span == old(item)@.span,
        final(item)@.attrs == without_partial_attrs(old(item)@.attrs),
        ({
            let ps = partial_attrs_of(old(item)@.attrs);
            let gc = type_param_count(old(item)@.generics);
            let diags = partial_diags_upto(ps, gc, ps.len() as int);
            match r {
                Ok(v) => diags.len() == 0 && v@.map_values(|p: PartialOverride| p@)
                    == partials_upto(ps, gc, ps.len() as int),
                Err(es) => es@.map_values(|d: Diagnostic| d@) == diags && diags.len() > 0,
            }
        }),
{
    let ghost a0 = old(item)@.attrs;
    let ghost ps = partial_attrs_of(a0);
    let parts = split_fn_attrs_partial(item);
    let gc = count_type_params(&item.generics);
    let ghost gci = type_param_count(old(item)@.generics);
    let mut vals: Vec<PartialOverride> = Vec::new();
    let mut errs: Vec<Diagnostic> = Vec::new();
    proof {
        assert(vals@.map_values(|p: PartialOverride| p@) =~~= partials_upto(ps, gci, 0));
        assert(errs@.map_values(|d: Diagnostic| d@) =~~= partial_diags_upto(ps, gci, 0));
        reveal_strlit("partial_");
        assert(partial_ret_prefix().len() == 8);
    }
    let mut i: usize = 0;
    while i < parts.len()
        invariant
            i <= parts@.len(),
            parts@.map_values(|a: FnAttribute| a@) == ps,
            gc as int == gci,
            partial_ret_prefix().len() == 8,
            forall|k: int| 0 <= k < ps.len() ==> is_partial_attr(#[trigger] ps[k]),
            vals@.map_values(|p: PartialOverride| p@) == partials_upto(ps, gci, i as int),
            errs@.map_values(|d: Diagnostic| d@) == partial_diags_upto(ps, gci, i as int),
        decreases parts@.len() - i,
    {
        let ghost vprev = vals@;
        let ghost eprev = errs@;
        proof {
            assert(ps[i as int] == parts@[i as int]@);
        }
        let pos_opt = crate::names::parse_dec(&parts[i].name.text, 8);
        let mut handled = false;
        match pos_opt {
            Some(pos) => {
                if pos > gc {
                    let d = Diagnostic::new(
                        DiagKind::InvalidPartialSyntax,
                        chars_of("invalid partial syntax"),
                        parts[i].span,
                    );
                    let ghost dv = d@;
                    errs.push(d);
                    handled = true;
                    proof {
                        assert(partial_pos_of(ps[i as int]) > gci);
                        assert(dv =~~= partial_diag(ps, gci, i as int)[0]);
                        assert(errs@.map_values(|x: Diagnostic| x@) =~~= eprev.map_values(
                            |x: Diagnostic| x@,
                        ).push(dv));
                    }
                } else {
                    // the suffix is a position within the generics
                    let mut dup = false;
                    let mut j: usize = 0;
                    while j < i
                        invariant
                            j <= i < parts@.len(),
                            parts@.map_values(|a: FnAttribute| a@) == ps,
                            dup == (exists|q: int|
                                0 <= q < j && ps[q].name.text == ps[i as int].name.text),
                        decreases i - j,
                    {
                        if chars_eq(&parts[j].name.text, &parts[i].name.text) {
                            proof {
                                assert(ps[j as int] == parts@[j as int]@);
                                assert(ps[j as int].name.text == ps[i as int].name.text);
                            }
                            dup = true;
                        }
                        j += 1;
                    }
                    if dup {
                        let d = Diagnostic::new(
                            DiagKind::RepeatedDefaultOrPartial,
                            chars_of("cannot use partial more than once"),
                            parts[i].span,
                        );
                        let ghost dv = d@;
                        errs.push(d);
                        handled = true;
                        proof {
                            assert(partial_suffix_ok(ps[i as int]));
                            assert(partial_pos_of(ps[i as int]) <= gci);
                            assert(same_partial_before(ps, i as int));
                            assert(dv =~~= partial_diag(ps, gci, i as int)[0]);
                            assert(errs@.map_values(|x: Diagnostic| x@) =~~= eprev.map_values(
                                |x: Diagnostic| x@,
                            ).push(dv));
                        }
                    } else {
                        match read_type_payload(&parts[i]) {
                            Some(t) => {
                                let ghost tv = t@;
                                let p = PartialOverride { pos, ty: t };
                                let ghost pv = p@;
                                vals.push(p);
                                handled = true;
                                proof {
                                    assert(partial_diag(ps, gci, i as int).len() == 0);
                                    assert(pv =~~= partial_entry(ps, gci, i as int)[0]);
                                    assert(vals@.map_values(|x: PartialOverride| x@)
                                        =~~= vprev.map_values(|x: PartialOverride| x@).push(pv));
                                }
                            },
                            None => {
                                let d = syntax_diag_at(parts[i].span);
                                let ghost dv = d@;
                                errs.push(d);
                                handled = true;
                                proof {
                                    assert(dv =~~= partial_diag(ps, gci, i as int)[0]);
                                    assert(errs@.map_values(|x: Diagnostic| x@)
                                        =~~= eprev.map_values(|x: Diagnostic| x@).push(dv));
                                }
                            },
                        }
                    }
                }
            },
            None => {
                let d = Diagnostic::new(
                    DiagKind::InvalidPartialSyntax,
                    chars_of("invalid partial syntax"),
                    parts[i].span,
                );
                let ghost dv = d@;
                errs.push(d);
                handled = true;
                proof {
                    assert(!partial_suffix_ok(ps[i as int]));
                    assert(dv =~~= partial_diag(ps, gci, i as int)[0]);
                    assert(errs@.map_values(|x: Diagnostic| x@) =~~= eprev.map_values(
                        |x: Diagnostic| x@,
                    ).push(dv));
                }
            },
        }
        i += 1;
        proof {
            assert(vals@.map_values(|p: PartialOverride| p@) =~~= partials_upto(
                ps,
                gci,
                i as int,
            ));
            assert(errs@.map_values(|d: Diagnostic| d@) =~~= partial_diags_upto(
                ps,
                gci,
                i as int,
            ));
        }
    }
    if errs.len() == 0 {
        Ok(vals)
    } else {
        Err(errs)
    }
}


// --------------------------------------------------------------- composition

pub open spec fn params_fixtures_upto(ps: Seq<ParamM>, n: int) -> Seq<FixtureM>
    decreases n,
{
    if n <= 0 {
        Seq::empty()
    } else {
        params_fixtures_upto(ps, n - 1) + param_fixtures(ps[n - 1])
    }
}

pub open spec fn params_fixture_diags_upto(ps: Seq<ParamM>, n: int) -> Seq<DiagM>
    decreases n,
{
    if n <= 0 {
        Seq::empty()
    } else {
        params_fixture_diags_upto(ps, n - 1) + param_fixture_diags(ps[n - 1])
    }
}

pub open spec fn params_values_upto(ps: Seq<ParamM>, n: int) -> Seq<ArgumentValueM>
    decreases n,
{
    if n <= 0 {
        Seq::empty()
    } else {
        params_values_upto(ps, n - 1) + param_values(ps[n - 1])
    }
}

pub open spec fn params_value_diags_upto(ps: Seq<ParamM>, n: int) -> Seq<DiagM>
    decreases n,
{
    if n <= 0 {
        Seq::empty()
    } else {
        params_value_diags_upto(ps, n - 1) + param_value_diags(ps[n - 1])
    }
}

pub open spec fn fixture_items(fs: Seq<FixtureM>) -> Seq<crate::model::ItemM> {
    fs.map_values(|f: FixtureM| crate::model::ItemM::Fixture(f))
}

pub open spec fn value_items(vs: Seq<ArgumentValueM>) -> Seq<crate::model::ItemM> {
    vs.map_values(|v: ArgumentValueM| crate::model::ItemM::Value(v))
}

pub open spec fn partial_attr_of(p: PartialM) -> crate::model::AttrM {
    crate::model::AttrM::Type(
        IdentM { text: crate::resolver::partial_ret_name(p.pos), span: p.ty.span },
        p.ty,
    )
}

pub open spec fn with_default_ret(
    attrs: Seq<crate::model::AttrM>,
    v: Option<ExprM>,
) -> Seq<crate::model::AttrM> {
    match v {
        Option::Some(t) => attrs.push(
            crate::model::AttrM::Type(
                IdentM { text: crate::resolver::default_ret_name(), span: t.span },
                t,
            ),
        ),
        Option::None => attrs,
    }
}

/// All the diagnostics one extension pass collects, in pass order.
pub open spec fn extension_diags(f: crate::sig::FnM) -> Seq<DiagM> {
    let ps = partial_attrs_of(f.attrs);
    let gc = type_param_count(f.generics);
    params_fixture_diags_upto(f.params, f.params.len() as int) + params_value_diags_upto(
        f.params,
        f.params.len() as int,
    ) + default_ret_diags(f.attrs) + partial_diags_upto(ps, gc, ps.len() as int)
}

/// Removing attributes of one name leaves those of another name alone.
proof fn lemma_named_after_removal(s: Seq<FnAttrM>, n1: Seq<char>, n2: Seq<char>)
    requires
        n1 != n2,
    ensures
        attrs_named(attrs_not_named(s, n1), n2) == attrs_named(s, n2),
    decreases s.len(),
{
    reveal(Seq::filter);
    if s.len() > 0 {
        let t = s.drop_last();
        lemma_named_after_removal(t, n1, n2);
        let x = s.last();
        if x.name.text == n1 {
            assert(attrs_not_named(s, n1) == attrs_not_named(t, n1));
            assert(attrs_named(s, n2) == attrs_named(t, n2));
        } else {
            assert(attrs_not_named(s, n1) == attrs_not_named(t, n1).push(x));
            assert((attrs_not_named(t, n1).push(x)).drop_last() =~= attrs_not_named(t, n1));
            assert(attrs_named(attrs_not_named(s, n1), n2) =~~= attrs_named(s, n2));
        }
    } else {
        assert(attrs_not_named(s, n1) =~= s);
    }
}

/// Taking the fixture-binding attributes off a parameter does not move
/// its default values.
proof fn lemma_values_unmoved(p: ParamM)
    ensures
        param_values(strip_with(p)) == param_values(p),
        param_value_diags(strip_with(p)) == param_value_diags(p),
{
    if !p.receiver {
        proof_with_default_names_differ();
        lemma_named_after_removal(p.attrs, "with"@, "default"@);
    }
}

proof fn proof_with_default_names_differ()
    ensures
        "with"@ != "default"@,
{
    reveal_strlit("with");
    reveal_strlit("default");
    assert("with"@.len() == 4);
    assert("default"@.len() == 7);
}

/// Taking the `default` attributes off the signature does not move its
/// `partial_…` attributes.
proof fn lemma_partials_unmoved(s: Seq<FnAttrM>)
    ensures
        partial_attrs_of(attrs_not_named(s, "default"@)) == partial_attrs_of(s),
    decreases s.len(),
{
    reveal(Seq::filter);
    reveal_strlit("default");
    reveal_strlit("partial_");
    if s.len() > 0 {
        let t = s.drop_last();
        lemma_partials_unmoved(t);
        let x = s.last();
        if x.name.text == "default"@ {
            assert("default"@.len() == 7);
            assert(partial_ret_prefix().len() == 8);
            assert(!is_partial_attr(x));
            assert(attrs_not_named(s, "default"@) == attrs_not_named(t, "default"@));
            assert(partial_attrs_of(s) == partial_attrs_of(t));
        } else {
            assert(attrs_not_named(s, "default"@) == attrs_not_named(t, "default"@).push(x));
            assert((attrs_not_named(t, "default"@).push(x)).drop_last() =~= attrs_not_named(
                t,
                "default"@,
            ));
            assert(partial_attrs_of(attrs_not_named(s, "default"@)) =~~= partial_attrs_of(s));
        }
    } else {
        assert(attrs_not_named(s, "default"@) =~= s);
    }
}

impl crate::model::FixtureInfo {
    /// Extend this annotation with everything the signature's attributes
    /// declare: the per-parameter fixture bindings and default values
    /// become items, the `default` and `partial_N` declarations become
    /// return-type modifiers, and the used attributes are taken off the
    /// signature. Every pass runs; on any failure, all the collected
    /// diagnostics come back in pass order and the annotation stays as it
    /// was.
    pub fn extend_with_function_attrs(&mut self, item_fn: &mut FunctionDesc) -> (r: Result<
        (),
        Vec<Diagnostic>,
    >)
        ensures
            final(item_fn)@.name == old(item_fn)@.name,
            final(item_fn)@.generics == old(item_fn)@.generics,
            final(item_fn)@.span == old(item_fn)@.span,
            final(item_fn)@.params == old(item_fn)@.params.map_values(
                |p: ParamM| strip_default(strip_with(p)),
            ),
            final(item_fn)@.attrs == without_partial_attrs(
                without_default_attrs(old(item_fn)@.attrs),
            ),
            ({
                let f0 = old(item_fn)@;
                let ps = partial_attrs_of(f0.attrs);
                let gc = type_param_count(f0.generics);
                match r {
                    Ok(()) => extension_diags(f0).len() == 0 && final(self)@.items == old(
                        self,
                    )@.items + fixture_items(
                        params_fixtures_upto(f0.params, f0.params.len() as int),
                    ) + value_items(params_values_upto(f0.params, f0.params.len() as int))
                        && final(self)@.attrs == with_default_ret(
                        old(self)@.attrs,
                        default_ret_value(f0.attrs),
                    ) + partials_upto(ps, gc, ps.len() as int).map_values(
                        |p: PartialM| partial_attr_of(p),
                    ),
                    Err(es) => es@.map_values(|d: Diagnostic| d@) == extension_diags(f0)
                        && extension_diags(f0).len() > 0 && final(self)@ == old(self)@,
                }
            }),
    {
        let ghost f0 = old(item_fn)@;
        let ghost ps0 = f0.params;
        // the fixture bindings riding on the parameters
        let mut fx = FixturesFunctionExtractor(Vec::new(), Vec::new());
        proof {
            assert(fx.0@.map_values(|f: Fixture| f@) =~~= params_fixtures_upto(ps0, 0));
            assert(fx.1@.map_values(|d: Diagnostic| d@) =~~= params_fixture_diags_upto(ps0, 0));
        }
        let mut i: usize = 0;
        while i < item_fn.params.len()
            invariant
                i <= item_fn.params@.len(),
                item_fn.params@.len() == ps0.len(),
                forall|k: int|
                    0 <= k < i ==> (#[trigger] item_fn.params@[k])@ == strip_with(ps0[k]),
                forall|k: int| i <= k < ps0.len() ==> (#[trigger] item_fn.params@[k])@ == ps0[k],
                fx.0@.map_values(|f: Fixture| f@) == params_fixtures_upto(ps0, i as int),
                fx.1@.map_values(|d: Diagnostic| d@) == params_fixture_diags_upto(ps0, i as int),
                item_fn.name == old(item_fn).name,
                item_fn.attrs == old(item_fn).attrs,
                item_fn.generics == old(item_fn).generics,
                item_fn.span == old(item_fn).span,
            decreases item_fn.params@.len() - i,
        {
            let ghost before = item_fn.params@;
            let mut p = item_fn.params.remove(i);
            proof {
                assert(p@ == ps0[i as int]);
            }
            fx.visit_fn_arg_mut(&mut p);
            item_fn.params.insert(i, p);
            proof {
                assert(item_fn.params@ =~= before.update(i as int, p));
            }
            i += 1;
        }
        // the default values riding on the parameters
        let mut dx = DefaultsFunctionExtractor(Vec::new(), Vec::new());
        proof {
            assert(dx.0@.map_values(|v: ArgumentValue| v@) =~~= params_values_upto(ps0, 0));
            assert(dx.1@.map_values(|d: Diagnostic| d@) =~~= params_value_diags_upto(ps0, 0));
        }
        let mut i: usize = 0;
        while i < item_fn.params.len()
            invariant
                i <= item_fn.params@.len(),
                item_fn.params@.len() == ps0.len(),
                forall|k: int|
                    0 <= k < i ==> (#[trigger] item_fn.params@[k])@ == strip_default(
                        strip_with(ps0[k]),
                    ),
                forall|k: int|
                    i <= k < ps0.len() ==> (#[trigger] item_fn.params@[k])@ == strip_with(
                        ps0[k],
                    ),
                dx.0@.map_values(|v: ArgumentValue| v@) == params_values_upto(ps0, i as int),
                dx.1@.map_values(|d: Diagnostic| d@) == params_value_diags_upto(ps0, i as int),
                item_fn.name == old(item_fn).name,
                item_fn.attrs == old(item_fn).attrs,
                item_fn.generics == old(item_fn).generics,
                item_fn.span == old(item_fn).span,
            decreases item_fn.params@.len() - i,
        {
            let ghost before = item_fn.params@;
            let mut p = item_fn.params.remove(i);
            proof {
                assert(p@ == strip_with(ps0[i as int]));
            }
            dx.visit_fn_arg_mut(&mut p);
            item_fn.params.insert(i, p);
            proof {
                assert(item_fn.params@ =~= before.update(i as int, p));
                lemma_values_unmoved(ps0[i as int]);
            }
            i += 1;
        }
        proof {
            assert(item_fn.params@.map_values(|p: ParamDesc| p@) =~~= ps0.map_values(
                |p: ParamM| strip_default(strip_with(p)),
            ));
        }
        // the return-type overrides riding on the signature
        let dret = extract_default_return_type(item_fn);
        proof {
            lemma_partials_unmoved(f0.attrs);
        }
        let parts = extract_partials_return_type(item_fn);
        // every failure of every pass, in pass order
        let FixturesFunctionExtractor(fixtures, mut fx_errs) = fx;
        let DefaultsFunctionExtractor(values, mut dx_errs) = dx;
        let ghost fx_em = fx_errs@.map_values(|d: Diagnostic| d@);
        let ghost dx_em = dx_errs@.map_values(|d: Diagnostic| d@);
        let mut errs: Vec<Diagnostic> = Vec::new();
        errs.append(&mut fx_errs);
        errs.append(&mut dx_errs);
        let mut dret_val: Option<ExprSpan> = None;
        let ghost mut dret_em: Seq<DiagM> = Seq::empty();
        match dret {
            Ok(v) => {
                dret_val = v;
            },
            Err(mut es) => {
                proof {
                    dret_em = es@.map_values(|d: Diagnostic| d@);
                }
                errs.append(&mut es);
            },
        }
        let mut parts_val: Vec<PartialOverride> = Vec::new();
        let ghost mut parts_em: Seq<DiagM> = Seq::empty();
        match parts {
            Ok(v) => {
                parts_val = v;
            },
            Err(mut es) => {
                proof {
                    parts_em = es@.map_values(|d: Diagnostic| d@);
                }
                errs.append(&mut es);
            },
        }
        proof {
            assert(default_ret_diags(f0.attrs) =~~= dret_em);
            assert(partial_diags_upto(
                partial_attrs_of(f0.attrs),
                type_param_count(f0.generics),
                partial_attrs_of(f0.attrs).len() as int,
            ) =~~= parts_em);
            assert(errs@.map_values(|d: Diagnostic| d@) =~~= extension_diags(f0));
        }
        if errs.len() > 0 {
            return Err(errs);
        }
        // a clean pass: extend the items and record the overrides
        let ghost items0 = old(self)@.items;
        let ghost fxm = params_fixtures_upto(ps0, ps0.len() as int);
        let ghost vxm = params_values_upto(ps0, ps0.len() as int);
        let mut fixtures = fixtures;
        proof {
            assert(self@.items + fixture_items(fxm).take(0) =~~= self@.items);
        }
        let ghost mut j: int = 0;
        while fixtures.len() > 0
            invariant
                0 <= j,
                j + fixtures@.len() == fxm.len(),
                forall|k: int|
                    0 <= k < fixtures@.len() ==> (#[trigger] fixtures@[k])@ == fxm[j + k],
                self@.items == items0 + fixture_items(fxm).take(j),
                self@.attrs == old(self)@.attrs,
            decreases fixtures@.len(),
        {
            let ghost iprev = self@.items;
            let f = fixtures.remove(0);
            proof {
                assert(f@ == fxm[j]);
            }
            self.data.items.push(crate::model::FixtureItem::Fixture(f));
            proof {
                j = j + 1;
            }
            proof {
                assert(self@.items =~~= iprev.push(crate::model::ItemM::Fixture(fxm[j - 1])));
                assert(fixture_items(fxm).take(j) =~~= fixture_items(fxm).take(j - 1).push(
                    crate::model::ItemM::Fixture(fxm[j - 1]),
                ));
                assert(self@.items =~~= items0 + fixture_items(fxm).take(j));
            }
        }
        proof {
            assert(fixture_items(fxm).take(fxm.len() as int) =~= fixture_items(fxm));
        }
        let mut values = values;
        let ghost items1 = items0 + fixture_items(fxm);
        proof {
            assert(self@.items =~~= items1 + value_items(vxm).take(0));
        }
        let ghost mut j: int = 0;
        while values.len() > 0
            invariant
                0 <= j,
                j + values@.len() == vxm.len(),
                forall|k: int| 0 <= k < values@.len() ==> (#[trigger] values@[k])@ == vxm[j + k],
                self@.items == items1 + value_items(vxm).take(j),
                self@.attrs == old(self)@.attrs,
            decreases values@.len(),
        {
            let ghost iprev = self@.items;
            let v = values.remove(0);
            proof {
                assert(v@ == vxm[j]);
            }
            self.data.items.push(crate::model::FixtureItem::ArgumentValue(v));
            proof {
                j = j + 1;
            }
            proof {
                assert(self@.items =~~= iprev.push(crate::model::ItemM::Value(vxm[j - 1])));
                assert(value_items(vxm).take(j) =~~= value_items(vxm).take(j - 1).push(
                    crate::model::ItemM::Value(vxm[j - 1]),
                ));
                assert(self@.items =~~= items1 + value_items(vxm).take(j));
            }
        }
        proof {
            assert(value_items(vxm).take(vxm.len() as int) =~= value_items(vxm));
            assert(self@.items =~~= items1 + value_items(vxm));
        }
        // the return-type modifiers
        let ghost attrs0 = old(self)@.attrs;
        match dret_val {
            Some(t) => {
                self.attributes.set_default_return_type(t);
            },
            None => (),
        }
        let ghost attrs1 = with_default_ret(attrs0, default_ret_value(f0.attrs));
        proof {
            assert(self@.attrs =~~= attrs1);
        }
        let ghost pmv = partials_upto(
            partial_attrs_of(f0.attrs),
            type_param_count(f0.generics),
            partial_attrs_of(f0.attrs).len() as int,
        );
        let mut parts_val = parts_val;
        proof {
            assert(self@.attrs =~~= attrs1 + pmv.take(0).map_values(
                |p: PartialM| partial_attr_of(p),
            ));
        }
        let ghost mut j: int = 0;
        while parts_val.len() > 0
            invariant
                0 <= j,
                j + parts_val@.len() == pmv.len(),
                forall|k: int|
                    0 <= k < parts_val@.len() ==> (#[trigger] parts_val@[k])@ == pmv[j + k],
                self@.attrs == attrs1 + pmv.take(j).map_values(|p: PartialM| partial_attr_of(p)),
                self@.items == items1 + value_items(vxm),
            decreases parts_val@.len(),
        {
            let ghost aprev = self@.attrs;
            let p = parts_val.remove(0);
            proof {
                assert(p@ == pmv[j]);
            }
            self.attributes.set_partial_return_type(p.pos, p.ty);
            proof {
                j = j + 1;
            }
            proof {
                assert(self@.attrs =~~= aprev.push(partial_attr_of(pmv[j - 1])));
                assert(pmv.take(j).map_values(|p: PartialM| partial_attr_of(p)) =~~= pmv.take(
                    j - 1,
                ).map_values(|p: PartialM| partial_attr_of(p)).push(partial_attr_of(pmv[j - 1])));
                assert(self@.attrs =~~= attrs1 + pmv.take(j).map_values(
                    |p: PartialM| partial_attr_of(p),
                ));
            }
        }
        proof {
            assert(pmv.take(pmv.len() as int) =~= pmv);
            assert(pmv.take(pmv.len() as int).map_values(|p: PartialM| partial_attr_of(p))
                =~~= pmv.map_values(|p: PartialM| partial_attr_of(p)));
        }
        Ok(())
    }
}

} // verus!
