//! The annotation grammar.
//!
//! An annotation is an optional comma-separated item list, a single
//! trailing comma tolerated, followed by an optional modifier section that
//! a `::` opens. An item is a name: `name = expr` binds a value, a bare
//! `name` or `name(expr, …)` refers to a fixture. A modifier is a bare
//! flag, `flag(ident, …)`, or `flag<Type>`. Value expressions and types
//! are opaque: a run of tokens, well formed when `syn` accepts its text.
//!
//! A value expression's run of tokens ends at a top-level comma or at the
//! end of input. It also ends at a `::` — that is what lets the modifier
//! section follow an item without a comma — except after an identifier,
//! where the `::` reads as a path and the run goes on (`value = std::f64::MAX`).
//!
//! The grammar is written down once, as the `spec_parse…` family of
//! recursive specification functions; the executable parser is proved to
//! return exactly what they say, and fails with a positioned syntax
//! diagnostic exactly where they fail.

use vstd::prelude::*;
use crate::diag::{Diagnostic, DiagKind, Span};
use crate::model::{ArgumentValue, ArgumentValueM, Attribute, Attributes, AttrM, ExprM, ExprSpan, Fixture, FixtureData, FixtureInfo, FixtureItem, FixtureM, FixtureModifiers, IdentM, IdentS, InfoM, ItemM};
use crate::outside::{check_expr, check_type, chars_of, expr_parses, type_parses};
use crate::token::{leaves_text, render_leaves, render_tokens, tokens_text, Leaf, Token};

verus! {

/// A partial parse: failure at a position, or a value plus the cursor
/// after it.
pub enum POut<T> {
    Failed { sp: Span },
    Parsed { v: T, next: int },
}

/// The whole-annotation outcome.
pub enum ParseOut {
    Failed { sp: Span },
    Parsed { info: InfoM },
}

/// The position just past the last token: where a diagnostic points when
/// the input ends too early.
pub open spec fn end_span(s: Seq<Token>) -> Span {
    if s.len() == 0 {
        Span { lo: 0, hi: 0 }
    } else {
        Span { lo: s[s.len() - 1].spec_span().hi, hi: s[s.len() - 1].spec_span().hi }
    }
}

pub open spec fn fail_at(s: Seq<Token>, j: int) -> Span {
    if 0 <= j < s.len() {
        s[j].spec_span()
    } else {
        end_span(s)
    }
}

/// A `::` at position `j`: a joint colon, then a colon.
pub open spec fn pathsep_at(s: Seq<Token>, j: int) -> bool {
    &&& 0 <= j
    &&& j + 1 < s.len()
    &&& s[j] is Punct
    &&& s[j]->Punct_ch == ':'
    &&& s[j]->Punct_joint
    &&& s[j + 1] is Punct
    &&& s[j + 1]->Punct_ch == ':'
}

/// Where a value expression beginning at `start` ends, scanning from `j`:
/// at a top-level comma, at the end of input, or at a `::` not preceded by
/// an identifier.
pub open spec fn expr_end(s: Seq<Token>, start: int, j: int) -> int
    decreases s.len() - j,
{
    if j < 0 || j >= s.len() {
        j
    } else if s[j].is_comma() {
        j
    } else if pathsep_at(s, j) {
        if j > start && s[j - 1].is_ident() {
            expr_end(s, start, j + 2)
        } else {
            j
        }
    } else {
        expr_end(s, start, j + 1)
    }
}

pub proof fn lemma_expr_end_bounds(s: Seq<Token>, start: int, j: int)
    requires
        0 <= j <= s.len(),
    ensures
        j <= expr_end(s, start, j) <= s.len(),
    decreases s.len() - j,
{
    if j < s.len() && !s[j].is_comma() {
        if pathsep_at(s, j) {
            if j > start && s[j - 1].is_ident() {
                lemma_expr_end_bounds(s, start, j + 2);
            }
        } else {
            lemma_expr_end_bounds(s, start, j + 1);
        }
    }
}

/// The next top-level comma at or after `j`, or the length if none.
pub open spec fn next_comma(inner: Seq<Leaf>, j: int) -> int
    decreases inner.len() - j,
{
    if j < 0 || j >= inner.len() {
        inner.len() as int
    } else if inner[j].is_comma() {
        j
    } else {
        next_comma(inner, j + 1)
    }
}

pub proof fn lemma_next_comma_bounds(inner: Seq<Leaf>, j: int)
    requires
        0 <= j <= inner.len(),
    ensures
        j <= next_comma(inner, j) <= inner.len(),
    decreases inner.len() - j,
{
    if j < inner.len() && !inner[j].is_comma() {
        lemma_next_comma_bounds(inner, j + 1);
    }
}

/// The positional arguments inside a fixture's parentheses: value
/// expressions separated by commas, a single trailing comma tolerated,
/// possibly none at all. An empty run between commas fails.
pub open spec fn spec_parse_args(inner: Seq<Leaf>, j: int) -> POut<Seq<ExprM>>
    decreases inner.len() - j,
{
    if j < 0 || j >= inner.len() {
        POut::Parsed { v: Seq::empty(), next: inner.len() as int }
    } else {
        let c0 = next_comma(inner, j);
        let c = if c0 < j {
            j
        } else if c0 > inner.len() {
            inner.len() as int
        } else {
            c0
        };
        if c == j {
            POut::Failed { sp: inner[j].spec_span() }
        } else {
            let text = leaves_text(inner.subrange(j, c));
            if !expr_parses(text) {
                POut::Failed { sp: inner[j].spec_span() }
            } else {
                let e = ExprM {
                    text,
                    span: inner[j].spec_span().spec_join(inner[c - 1].spec_span()),
                };
                if c >= inner.len() {
                    POut::Parsed { v: seq![e], next: inner.len() as int }
                } else {
                    match spec_parse_args(inner, c + 1) {
                        POut::Failed { sp } => POut::Failed { sp },
                        POut::Parsed { v, next } => POut::Parsed { v: seq![e] + v, next },
                    }
                }
            }
        }
    }
}

/// One item: `name = expr`, `name(args…)`, or a bare `name`.
pub open spec fn spec_parse_item(s: Seq<Token>, i: int) -> POut<ItemM> {
    if i < 0 || i >= s.len() {
        POut::Failed { sp: end_span(s) }
    } else if !s[i].is_ident() {
        POut::Failed { sp: s[i].spec_span() }
    } else {
        let name = IdentM { text: s[i].txt(), span: s[i].spec_span() };
        if i + 1 < s.len() && s[i + 1].is_eq_alone() {
            let st = i + 2;
            let e = expr_end(s, st, st);
            if e <= st || e > s.len() {
                POut::Failed { sp: fail_at(s, st) }
            } else {
                let text = tokens_text(s.subrange(st, e));
                if !expr_parses(text) {
                    POut::Failed { sp: fail_at(s, st) }
                } else {
                    POut::Parsed {
                        v: ItemM::Value(
                            ArgumentValueM {
                                name,
                                expr: ExprM {
                                    text,
                                    span: s[st].spec_span().spec_join(s[e - 1].spec_span()),
                                },
                            },
                        ),
                        next: e,
                    }
                }
            }
        } else if i + 1 < s.len() && s[i + 1].is_paren_group() {
            match spec_parse_args(s[i + 1]->Group_inner@, 0) {
                POut::Failed { sp } => POut::Failed { sp },
                POut::Parsed { v, .. } => POut::Parsed {
                    v: ItemM::Fixture(FixtureM { name, positional: v }),
                    next: i + 2,
                },
            }
        } else {
            POut::Parsed {
                v: ItemM::Fixture(FixtureM { name, positional: Seq::empty() }),
                next: i + 1,
            }
        }
    }
}

pub proof fn lemma_parse_item_bounds(s: Seq<Token>, i: int)
    requires
        0 <= i <= s.len(),
        spec_parse_item(s, i) is Parsed,
    ensures
        i < spec_parse_item(s, i)->Parsed_next <= s.len(),
{
    if i < s.len() && s[i].is_ident() {
        if i + 1 < s.len() && s[i + 1].is_eq_alone() {
            lemma_expr_end_bounds(s, i + 2, i + 2);
        }
    }
}

/// The item list: items separated by commas, stopping at the end of input
/// or before a `::`; a single trailing comma is tolerated.
pub open spec fn spec_parse_items(s: Seq<Token>, i: int) -> POut<Seq<ItemM>>
    decreases s.len() - i,
{
    if i < 0 || i >= s.len() || pathsep_at(s, i) {
        POut::Parsed { v: Seq::empty(), next: i }
    } else {
        match spec_parse_item(s, i) {
            POut::Failed { sp } => POut::Failed { sp },
            POut::Parsed { v: item, next: j0 } => {
                let j = if j0 <= i {
                    i + 1
                } else if j0 > s.len() {
                    s.len() as int
                } else {
                    j0
                };
                if j >= s.len() {
                    POut::Parsed { v: seq![item], next: j }
                } else if s[j].is_comma() {
                    if j + 1 >= s.len() || pathsep_at(s, j + 1) {
                        POut::Parsed { v: seq![item], next: j + 1 }
                    } else {
                        match spec_parse_items(s, j + 1) {
                            POut::Failed { sp } => POut::Failed { sp },
                            POut::Parsed { v, next } => POut::Parsed { v: seq![item] + v, next },
                        }
                    }
                } else if pathsep_at(s, j) {
                    POut::Parsed { v: seq![item], next: j }
                } else {
                    POut::Failed { sp: s[j].spec_span() }
                }
            },
        }
    }
}

/// After a successful item list the cursor rests at the end of input or on
/// a `::`.
pub proof fn lemma_parse_items_stop(s: Seq<Token>, i: int)
    requires
        0 <= i <= s.len(),
        spec_parse_items(s, i) is Parsed,
    ensures
        i <= spec_parse_items(s, i)->Parsed_next <= s.len(),
        spec_parse_items(s, i)->Parsed_next == s.len() || pathsep_at(s, spec_parse_items(s, i)->Parsed_next),
    decreases s.len() - i,
{
    if i >= s.len() || pathsep_at(s, i) {
    } else {
        match spec_parse_item(s, i) {
            POut::Failed { .. } => {},
            POut::Parsed { v: _, next: j0 } => {
                lemma_parse_item_bounds(s, i);
                let j = j0;
                if j >= s.len() {
                } else if s[j].is_comma() {
                    if j + 1 >= s.len() || pathsep_at(s, j + 1) {
                    } else {
                        lemma_parse_items_stop(s, j + 1);
                    }
                }
            },
        }
    }
}

/// The scan for the `>` that closes a `flag<Type>` modifier, counting
/// angle depth; the length means it is missing.
pub open spec fn close_angle(s: Seq<Token>, j: int, depth: int) -> int
    decreases s.len() - j,
{
    if j < 0 || j >= s.len() {
        s.len() as int
    } else if s[j] is Punct && s[j]->Punct_ch == '<' {
        close_angle(s, j + 1, depth + 1)
    } else if s[j] is Punct && s[j]->Punct_ch == '>' {
        if depth <= 1 {
            j
        } else {
            close_angle(s, j + 1, depth - 1)
        }
    } else {
        close_angle(s, j + 1, depth)
    }
}

pub proof fn lemma_close_angle_bounds(s: Seq<Token>, j: int, depth: int)
    requires
        0 <= j <= s.len(),
    ensures
        j <= close_angle(s, j, depth) <= s.len(),
    decreases s.len() - j,
{
    if j < s.len() {
        if s[j] is Punct && s[j]->Punct_ch == '<' {
            lemma_close_angle_bounds(s, j + 1, depth + 1);
        } else if s[j] is Punct && s[j]->Punct_ch == '>' {
            if depth > 1 {
                lemma_close_angle_bounds(s, j + 1, depth - 1);
            }
        } else {
            lemma_close_angle_bounds(s, j + 1, depth);
        }
    }
}

/// The identifier arguments of a tagged modifier, separated by commas, a
/// single trailing comma tolerated.
pub open spec fn spec_parse_tag_args(inner: Seq<Leaf>, j: int) -> POut<Seq<IdentM>>
    decreases inner.len() - j,
{
    if j < 0 || j >= inner.len() {
        POut::Parsed { v: Seq::empty(), next: inner.len() as int }
    } else if !(inner[j] is Ident) {
        POut::Failed { sp: inner[j].spec_span() }
    } else {
        let id = IdentM { text: inner[j].txt(), span: inner[j].spec_span() };
        if j + 1 >= inner.len() {
            POut::Parsed { v: seq![id], next: inner.len() as int }
        } else if inner[j + 1].is_comma() {
            match spec_parse_tag_args(inner, j + 2) {
                POut::Failed { sp } => POut::Failed { sp },
                POut::Parsed { v, next } => POut::Parsed { v: seq![id] + v, next },
            }
        } else {
            POut::Failed { sp: inner[j + 1].spec_span() }
        }
    }
}

/// One modifier: `flag`, `flag(ident, …)`, or `flag<Type>`.
pub open spec fn spec_parse_attr(s: Seq<Token>, i: int) -> POut<AttrM> {
    if i < 0 || i >= s.len() {
        POut::Failed { sp: end_span(s) }
    } else if !s[i].is_ident() {
        POut::Failed { sp: s[i].spec_span() }
    } else {
        let name = IdentM { text: s[i].txt(), span: s[i].spec_span() };
        if i + 1 < s.len() && s[i + 1] is Punct && s[i + 1]->Punct_ch == '<' {
            let g = close_angle(s, i + 2, 1);
            if g >= s.len() {
                POut::Failed { sp: s[i + 1].spec_span() }
            } else if g <= i + 2 {
                POut::Failed { sp: s[g].spec_span() }
            } else {
                let text = tokens_text(s.subrange(i + 2, g));
                if !type_parses(text) {
                    POut::Failed { sp: s[i + 2].spec_span() }
                } else {
                    POut::Parsed {
                        v: AttrM::Type(
                            name,
                            ExprM {
                                text,
                                span: s[i + 2].spec_span().spec_join(s[g - 1].spec_span()),
                            },
                        ),
                        next: g + 1,
                    }
                }
            }
        } else if i + 1 < s.len() && s[i + 1].is_paren_group() {
            match spec_parse_tag_args(s[i + 1]->Group_inner@, 0) {
                POut::Failed { sp } => POut::Failed { sp },
                POut::Parsed { v, .. } => POut::Parsed { v: AttrM::Tagged(name, v), next: i + 2 },
            }
        } else {
            POut::Parsed { v: AttrM::Attr(name), next: i + 1 }
        }
    }
}

pub proof fn lemma_parse_attr_bounds(s: Seq<Token>, i: int)
    requires
        0 <= i <= s.len(),
        spec_parse_attr(s, i) is Parsed,
    ensures
        i < spec_parse_attr(s, i)->Parsed_next <= s.len(),
{
    if i < s.len() && s[i].is_ident() {
        if i + 1 < s.len() && s[i + 1] is Punct && s[i + 1]->Punct_ch == '<' {
            lemma_close_angle_bounds(s, i + 2, 1);
        }
    }
}

/// The modifier section after the opening `::`: modifiers separated by
/// `::`, a trailing `::` tolerated, possibly none at all. It runs to the
/// end of the input.
pub open spec fn spec_parse_attrs(s: Seq<Token>, i: int) -> POut<Seq<AttrM>>
    decreases s.len() - i,
{
    if i < 0 || i >= s.len() {
        POut::Parsed { v: Seq::empty(), next: s.len() as int }
    } else {
        match spec_parse_attr(s, i) {
            POut::Failed { sp } => POut::Failed { sp },
            POut::Parsed { v: a, next: j0 } => {
                let j = if j0 <= i {
                    i + 1
                } else if j0 > s.len() {
                    s.len() as int
                } else {
                    j0
                };
                if j >= s.len() {
                    POut::Parsed { v: seq![a], next: s.len() as int }
                } else if pathsep_at(s, j) {
                    if j + 2 >= s.len() {
                        POut::Parsed { v: seq![a], next: s.len() as int }
                    } else {
                        match spec_parse_attrs(s, j + 2) {
                            POut::Failed { sp } => POut::Failed { sp },
                            POut::Parsed { v, next } => POut::Parsed { v: seq![a] + v, next },
                        }
                    }
                } else {
                    POut::Failed { sp: s[j].spec_span() }
                }
            },
        }
    }
}

/// The whole annotation: an empty annotation is the empty model; otherwise
/// the item list, then — unless the input is exhausted — a `::` and the
/// modifier section.
pub open spec fn spec_parse(s: Seq<Token>) -> ParseOut {
    if s.len() == 0 {
        ParseOut::Parsed { info: InfoM::empty() }
    } else {
        match spec_parse_items(s, 0) {
            POut::Failed { sp } => ParseOut::Failed { sp },
            POut::Parsed { v: items, next: m0 } => {
                let m = if m0 < 0 {
                    0
                } else if m0 > s.len() {
                    s.len() as int
                } else {
                    m0
                };
                if m >= s.len() {
                    ParseOut::Parsed { info: InfoM { items, attrs: Seq::empty() } }
                } else if pathsep_at(s, m) {
                    match spec_parse_attrs(s, m + 2) {
                        POut::Failed { sp } => ParseOut::Failed { sp },
                        POut::Parsed { v: attrs, .. } => ParseOut::Parsed {
                            info: InfoM { items, attrs },
                        },
                    }
                } else {
                    ParseOut::Failed { sp: s[m].spec_span() }
                }
            },
        }
    }
}

} // verus!

// ---------------------------------------------------------------- executable

verus! {

/// The one message of a grammar failure; the position tells the rest.
pub open spec fn syntax_msg() -> Seq<char> {
    "malformed annotation"@
}

fn syntax_diag(sp: Span) -> (d: Diagnostic)
    ensures
        d.kind == DiagKind::Syntax,
        d.span == sp,
        d.message@ == syntax_msg(),
{
    Diagnostic::new(DiagKind::Syntax, chars_of("malformed annotation"), sp)
}

fn end_span_exec(s: &Vec<Token>) -> (r: Span)
    ensures
        r == end_span(s@),
{
    if s.len() == 0 {
        Span { lo: 0, hi: 0 }
    } else {
        let last = s[s.len() - 1].span();
        Span { lo: last.hi, hi: last.hi }
    }
}

fn fail_span_exec(s: &Vec<Token>, j: usize) -> (r: Span)
    ensures
        r == fail_at(s@, j as int),
{
    if j < s.len() {
        s[j].span()
    } else {
        end_span_exec(s)
    }
}

fn is_pathsep(s: &Vec<Token>, j: usize) -> (r: bool)
    ensures
        r == pathsep_at(s@, j as int),
{
    if j >= s.len() {
        false
    } else if j + 1 >= s.len() {
        false
    } else {
        s[j].joint_colon() && s[j + 1].colon()
    }
}

fn find_expr_end(s: &Vec<Token>, start: usize, j: usize) -> (r: usize)
    requires
        j <= s@.len(),
    ensures
        r as int == expr_end(s@, start as int, j as int),
        j <= r <= s@.len(),
    decreases s@.len() - j,
{
    proof {
        lemma_expr_end_bounds(s@, start as int, j as int);
    }
    if j >= s.len() {
        j
    } else if s[j].comma() {
        j
    } else if is_pathsep(s, j) {
        if j > start && s[j - 1].ident() {
            find_expr_end(s, start, j + 2)
        } else {
            j
        }
    } else {
        find_expr_end(s, start, j + 1)
    }
}

fn find_comma(inner: &Vec<Leaf>, j: usize) -> (r: usize)
    requires
        j <= inner@.len(),
    ensures
        r as int == next_comma(inner@, j as int),
        j <= r <= inner@.len(),
    decreases inner@.len() - j,
{
    if j >= inner.len() {
        inner.len()
    } else if inner[j].comma() {
        j
    } else {
        find_comma(inner, j + 1)
    }
}

/// The positional arguments inside a fixture's parentheses.
pub fn parse_positional(inner: &Vec<Leaf>, j: usize) -> (r: Result<Vec<ExprSpan>, Diagnostic>)
    requires
        j <= inner@.len(),
    ensures
        ({
            let sp = spec_parse_args(inner@, j as int);
            match r {
                Ok(v) => sp is Parsed && sp->Parsed_v == v@.map_values(|e: ExprSpan| e@),
                Err(d) => sp is Failed && d.kind == DiagKind::Syntax && d.span == sp->Failed_sp
                    && d.message@ == syntax_msg(),
            }
        }),
    decreases inner@.len() - j,
{
    if j >= inner.len() {
        let v: Vec<ExprSpan> = Vec::new();
        proof {
            assert(v@.map_values(|e: ExprSpan| e@) =~= Seq::<ExprM>::empty());
        }
        return Ok(v);
    }
    let c = find_comma(inner, j);
    if c == j {
        return Err(syntax_diag(inner[j].span()));
    }
    let text = render_leaves(inner, j, c);
    if !check_expr(&text) {
        return Err(syntax_diag(inner[j].span()));
    }
    let span = inner[j].span().join(inner[c - 1].span());
    let e = ExprSpan { text, span };
    if c >= inner.len() {
        let mut v: Vec<ExprSpan> = Vec::new();
        v.push(e);
        proof {
            assert(v@.map_values(|x: ExprSpan| x@) =~= seq![
                spec_parse_args(inner@, j as int)->Parsed_v[0],
            ]);
        }
        Ok(v)
    } else {
        match parse_positional(inner, c + 1) {
            Err(d) => Err(d),
            Ok(mut rest) => {
                let ghost restv = rest@.map_values(|x: ExprSpan| x@);
                rest.insert(0, e);
                proof {
                    assert(rest@.map_values(|x: ExprSpan| x@) =~= seq![e@] + restv);
                }
                Ok(rest)
            },
        }
    }
}

} // verus!

verus! {

impl Token {
    /// The members of a group token.
    fn members(&self) -> (r: &Vec<Leaf>)
        requires
            self is Group,
        ensures
            r@ == self->Group_inner@,
    {
        match self {
            Token::Group { inner, .. } => inner,
            _ => vstd::pervasive::unreached(),
        }
    }
}

impl FixtureItem {
    /// One item of the annotation's item list, read at cursor `i`.
    pub fn parse(s: &Vec<Token>, i: usize) -> (r: Result<(FixtureItem, usize), Diagnostic>)
        requires
            i <= s@.len(),
        ensures
            ({
                let sp = spec_parse_item(s@, i as int);
                match r {
                    Ok(p) => sp == (POut::Parsed { v: p.0@, next: p.1 as int }) && i < p.1
                        <= s@.len(),
                    Err(d) => sp is Failed && d.kind == DiagKind::Syntax && d.span
                        == sp->Failed_sp && d.message@ == syntax_msg(),
                }
            }),
    {
        if i >= s.len() {
            return Err(syntax_diag(end_span_exec(s)));
        }
        if !s[i].ident() {
            return Err(syntax_diag(s[i].span()));
        }
        let name = IdentS { text: s[i].text_of(), span: s[i].span() };
        if i + 1 < s.len() && s[i + 1].eq_alone() {
            let st = i + 2;
            let e = find_expr_end(s, st, st);
            if e <= st {
                return Err(syntax_diag(fail_span_exec(s, st)));
            }
            let text = render_tokens(s, st, e);
            if !check_expr(&text) {
                return Err(syntax_diag(fail_span_exec(s, st)));
            }
            let span = s[st].span().join(s[e - 1].span());
            Ok((FixtureItem::ArgumentValue(ArgumentValue { name, expr: ExprSpan { text, span } }), e))
        } else if i + 1 < s.len() && s[i + 1].paren_group() {
            match parse_positional(s[i + 1].members(), 0) {
                Err(d) => Err(d),
                Ok(args) => Ok((FixtureItem::Fixture(Fixture { name, positional: args }), i + 2)),
            }
        } else {
            let empty: Vec<ExprSpan> = Vec::new();
            proof {
                assert(empty@.map_values(|x: ExprSpan| x@) =~= Seq::<ExprM>::empty());
            }
            Ok((FixtureItem::Fixture(Fixture { name, positional: empty }), i + 1))
        }
    }
}

impl FixtureData {
    /// The annotation's item list, read at cursor `i`; it stops at the end
    /// of input or before a `::`.
    pub fn parse(s: &Vec<Token>, i: usize) -> (r: Result<(FixtureData, usize), Diagnostic>)
        requires
            i <= s@.len(),
        ensures
            ({
                let sp = spec_parse_items(s@, i as int);
                match r {
                    Ok(p) => sp == (POut::Parsed { v: p.0@, next: p.1 as int }) && i <= p.1
                        <= s@.len(),
                    Err(d) => sp is Failed && d.kind == DiagKind::Syntax && d.span
                        == sp->Failed_sp && d.message@ == syntax_msg(),
                }
            }),
        decreases s@.len() - i,
    {
        if i >= s.len() || is_pathsep(s, i) {
            let d = FixtureData { items: Vec::new() };
            proof {
                assert(d@ =~= Seq::<ItemM>::empty());
            }
            return Ok((d, i));
        }
        let (item, j) = match FixtureItem::parse(s, i) {
            Err(d) => {
                return Err(d);
            },
            Ok(p) => p,
        };
        if j >= s.len() {
            let mut items: Vec<FixtureItem> = Vec::new();
            items.push(item);
            let d = FixtureData { items };
            proof {
                assert(d@ =~= seq![spec_parse_items(s@, i as int)->Parsed_v[0]]);
            }
            Ok((d, j))
        } else if s[j].comma() {
            if j + 1 >= s.len() || is_pathsep(s, j + 1) {
                let mut items: Vec<FixtureItem> = Vec::new();
                items.push(item);
                let d = FixtureData { items };
                proof {
                    assert(d@ =~= seq![spec_parse_items(s@, i as int)->Parsed_v[0]]);
                }
                Ok((d, j + 1))
            } else {
                match Self::parse(s, j + 1) {
                    Err(d) => Err(d),
                    Ok((rest, next)) => {
                        let ghost restv = rest@;
                        let mut items = rest.items;
                        items.insert(0, item);
                        let d = FixtureData { items };
                        proof {
                            assert(d@ =~= seq![item@] + restv);
                        }
                        Ok((d, next))
                    },
                }
            }
        } else if is_pathsep(s, j) {
            let mut items: Vec<FixtureItem> = Vec::new();
            items.push(item);
            let d = FixtureData { items };
            proof {
                assert(d@ =~= seq![spec_parse_items(s@, i as int)->Parsed_v[0]]);
            }
            Ok((d, j))
        } else {
            Err(syntax_diag(s[j].span()))
        }
    }
}

} // verus!

verus! {

fn find_close_angle(s: &Vec<Token>, j: usize, depth: usize) -> (r: usize)
    requires
        j <= s@.len(),
        s@.len() < usize::MAX,
        depth as int <= j + 1,
    ensures
        r as int == close_angle(s@, j as int, depth as int),
        j <= r <= s@.len(),
    decreases s@.len() - j,
{
    if j >= s.len() {
        s.len()
    } else if s[j].punct_char('<') {
        find_close_angle(s, j + 1, depth + 1)
    } else if s[j].punct_char('>') {
        if depth <= 1 {
            j
        } else {
            find_close_angle(s, j + 1, depth - 1)
        }
    } else {
        find_close_angle(s, j + 1, depth)
    }
}

fn parse_tag_idents(inner: &Vec<Leaf>, j: usize) -> (r: Result<Vec<IdentS>, Diagnostic>)
    requires
        j <= inner@.len(),
    ensures
        ({
            let sp = spec_parse_tag_args(inner@, j as int);
            match r {
                Ok(v) => sp is Parsed && sp->Parsed_v == v@.map_values(|x: IdentS| x@),
                Err(d) => sp is Failed && d.kind == DiagKind::Syntax && d.span == sp->Failed_sp
                    && d.message@ == syntax_msg(),
            }
        }),
    decreases inner@.len() - j,
{
    if j >= inner.len() {
        let v: Vec<IdentS> = Vec::new();
        proof {
            assert(v@.map_values(|x: IdentS| x@) =~= Seq::<IdentM>::empty());
        }
        return Ok(v);
    }
    if !inner[j].ident() {
        return Err(syntax_diag(inner[j].span()));
    }
    let id = IdentS { text: inner[j].text_of(), span: inner[j].span() };
    if j + 1 >= inner.len() {
        let mut v: Vec<IdentS> = Vec::new();
        v.push(id);
        proof {
            assert(v@.map_values(|x: IdentS| x@) =~= seq![
                spec_parse_tag_args(inner@, j as int)->Parsed_v[0],
            ]);
        }
        Ok(v)
    } else if inner[j + 1].comma() {
        match parse_tag_idents(inner, j + 2) {
            Err(d) => Err(d),
            Ok(mut rest) => {
                let ghost restv = rest@.map_values(|x: IdentS| x@);
                rest.insert(0, id);
                proof {
                    assert(rest@.map_values(|x: IdentS| x@) =~= seq![id@] + restv);
                }
                Ok(rest)
            },
        }
    } else {
        Err(syntax_diag(inner[j + 1].span()))
    }
}

impl Attribute {
    /// One modifier, read at cursor `i`.
    pub fn parse(s: &Vec<Token>, i: usize) -> (r: Result<(Attribute, usize), Diagnostic>)
        requires
            i <= s@.len(),
            s@.len() < usize::MAX,
        ensures
            ({
                let sp = spec_parse_attr(s@, i as int);
                match r {
                    Ok(p) => sp == (POut::Parsed { v: p.0@, next: p.1 as int }) && i < p.1
                        <= s@.len(),
                    Err(d) => sp is Failed && d.kind == DiagKind::Syntax && d.span
                        == sp->Failed_sp && d.message@ == syntax_msg(),
                }
            }),
    {
        if i >= s.len() {
            return Err(syntax_diag(end_span_exec(s)));
        }
        if !s[i].ident() {
            return Err(syntax_diag(s[i].span()));
        }
        let name = IdentS { text: s[i].text_of(), span: s[i].span() };
        if i + 1 < s.len() && s[i + 1].punct_char('<') {
            let g = find_close_angle(s, i + 2, 1);
            if g >= s.len() {
                return Err(syntax_diag(s[i + 1].span()));
            }
            if g <= i + 2 {
                return Err(syntax_diag(s[g].span()));
            }
            let text = render_tokens(s, i + 2, g);
            if !check_type(&text) {
                return Err(syntax_diag(s[i + 2].span()));
            }
            let span = s[i + 2].span().join(s[g - 1].span());
            Ok((Attribute::Type(name, ExprSpan { text, span }), g + 1))
        } else if i + 1 < s.len() && s[i + 1].paren_group() {
            match parse_tag_idents(s[i + 1].members(), 0) {
                Err(d) => Err(d),
                Ok(ids) => Ok((Attribute::Tagged(name, ids), i + 2)),
            }
        } else {
            Ok((Attribute::Attr(name), i + 1))
        }
    }
}

impl Attributes {
    /// The modifier section after its opening `::`, read at cursor `i`; it
    /// runs to the end of the input.
    pub fn parse(s: &Vec<Token>, i: usize) -> (r: Result<Attributes, Diagnostic>)
        requires
            i <= s@.len(),
            s@.len() < usize::MAX,
        ensures
            ({
                let sp = spec_parse_attrs(s@, i as int);
                match r {
                    Ok(a) => sp is Parsed && sp->Parsed_v == a@,
                    Err(d) => sp is Failed && d.kind == DiagKind::Syntax && d.span
                        == sp->Failed_sp && d.message@ == syntax_msg(),
                }
            }),
        decreases s@.len() - i,
    {
        if i >= s.len() {
            let a = Attributes { attributes: Vec::new() };
            proof {
                assert(a@ =~= Seq::<AttrM>::empty());
            }
            return Ok(a);
        }
        let (attr, j) = match Attribute::parse(s, i) {
            Err(d) => {
                return Err(d);
            },
            Ok(p) => p,
        };
        if j >= s.len() {
            let mut attributes: Vec<Attribute> = Vec::new();
            attributes.push(attr);
            let a = Attributes { attributes };
            proof {
                assert(a@ =~= seq![spec_parse_attrs(s@, i as int)->Parsed_v[0]]);
            }
            Ok(a)
        } else if is_pathsep(s, j) {
            if j + 2 >= s.len() {
                let mut attributes: Vec<Attribute> = Vec::new();
                attributes.push(attr);
                let a = Attributes { attributes };
                proof {
                    assert(a@ =~= seq![spec_parse_attrs(s@, i as int)->Parsed_v[0]]);
                }
                Ok(a)
            } else {
                match Self::parse(s, j + 2) {
                    Err(d) => Err(d),
                    Ok(rest) => {
                        let ghost restv = rest@;
                        let mut attributes = rest.attributes;
                        attributes.insert(0, attr);
                        let a = Attributes { attributes };
                        proof {
                            assert(a@ =~= seq![attr@] + restv);
                        }
                        Ok(a)
                    },
                }
            }
        } else {
            Err(syntax_diag(s[j].span()))
        }
    }
}

impl FixtureModifiers {
    /// The modifier section, as the modifiers of a fixture annotation.
    pub fn parse(s: &Vec<Token>, i: usize) -> (r: Result<FixtureModifiers, Diagnostic>)
        requires
            i <= s@.len(),
            s@.len() < usize::MAX,
        ensures
            ({
                let sp = spec_parse_attrs(s@, i as int);
                match r {
                    Ok(a) => sp is Parsed && sp->Parsed_v == a@,
                    Err(d) => sp is Failed && d.kind == DiagKind::Syntax && d.span
                        == sp->Failed_sp && d.message@ == syntax_msg(),
                }
            }),
    {
        match Attributes::parse(s, i) {
            Err(d) => Err(d),
            Ok(inner) => Ok(FixtureModifiers { inner }),
        }
    }
}

impl FixtureInfo {
    /// The whole annotation: item list, then an optional `::`-opened
    /// modifier section. An empty annotation is the empty model.
    pub fn parse(s: &Vec<Token>) -> (r: Result<FixtureInfo, Diagnostic>)
        requires
            s@.len() < usize::MAX,
        ensures
            ({
                let sp = spec_parse(s@);
                match r {
                    Ok(info) => sp == (ParseOut::Parsed { info: info@ }),
                    Err(d) => sp is Failed && d.kind == DiagKind::Syntax && d.span
                        == sp->Failed_sp && d.message@ == syntax_msg(),
                }
            }),
    {
        if s.len() == 0 {
            return Ok(FixtureInfo::empty());
        }
        let (data, m) = match FixtureData::parse(s, 0) {
            Err(d) => {
                return Err(d);
            },
            Ok(p) => p,
        };
        if m >= s.len() {
            let info = FixtureInfo {
                data,
                attributes: FixtureModifiers { inner: Attributes { attributes: Vec::new() } },
            };
            proof {
                assert(info@.attrs =~= Seq::<AttrM>::empty());
            }
            Ok(info)
        } else if is_pathsep(s, m) {
            match FixtureModifiers::parse(s, m + 2) {
                Err(d) => Err(d),
                Ok(attributes) => Ok(FixtureInfo { data, attributes }),
            }
        } else {
            Err(syntax_diag(s[m].span()))
        }
    }
}

} // verus!
