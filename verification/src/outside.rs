//! The boundary with the outside crates.
//!
//! The engine treats value expressions and types as opaque source spans,
//! but it must know whether such a span is well formed; that judgement
//! belongs to `syn`, reached here through trusted wrappers whose results
//! carry uninterpreted names. Raw annotation text is turned into token
//! trees by `proc-macro2`'s lexer, also behind trusted wrappers; the
//! conversion of those trees into this library's tokens is verified code
//! in `lex`.

use vstd::prelude::*;
use proc_macro2::{Delimiter, Spacing, TokenTree};
use crate::token::Delim;

verus! {

#[verifier::external_type_specification]
#[verifier::external_body]
pub struct ExTokenStream(proc_macro2::TokenStream);

#[verifier::external_type_specification]
#[verifier::external_body]
pub struct ExTokenTree(proc_macro2::TokenTree);

/// Whether a piece of source text is a well-formed Rust expression. The
/// judgement is `syn`'s; it depends on the text alone.
pub uninterp spec fn expr_parses(text: Seq<char>) -> bool;

/// Whether a piece of source text is a well-formed Rust type. The
/// judgement is `syn`'s; it depends on the text alone.
pub uninterp spec fn type_parses(text: Seq<char>) -> bool;

/// Relies on `syn::parse_str::<syn::Expr>`: whether the text parses as an
/// expression is a function of the text alone.
#[verifier::external_body]
pub fn check_expr(text: &Vec<char>) -> (r: bool)
    ensures
        r == expr_parses(text@),
{
    let s: String = text.iter().collect();
    syn::parse_str::<syn::Expr>(&s).is_ok()
}

/// Relies on `syn::parse_str::<syn::Type>`: whether the text parses as a
/// type is a function of the text alone.
#[verifier::external_body]
pub fn check_type(text: &Vec<char>) -> (r: bool)
    ensures
        r == type_parses(text@),
{
    let s: String = text.iter().collect();
    syn::parse_str::<syn::Type>(&s).is_ok()
}

/// One lexed token tree, one level deep: a nested stream stays opaque.
pub enum RawTree {
    Ident { text: Vec<char> },
    Punct { ch: char, joint: bool },
    Literal { text: Vec<char> },
    Group { delim: Delim, text: Vec<char>, inner: proc_macro2::TokenStream },
}

/// Relies on `str::parse::<proc_macro2::TokenStream>` (proc-macro2's
/// lexer): `None` exactly when the text does not lex.
#[verifier::external_body]
pub fn lex_stream(text: &str) -> (r: Option<proc_macro2::TokenStream>) {
    text.parse().ok()
}

/// Relies on `proc_macro2::TokenStream::into_iter`: the stream's top-level
/// trees, in order.
#[verifier::external_body]
pub fn stream_trees(ts: proc_macro2::TokenStream) -> (r: Vec<proc_macro2::TokenTree>) {
    ts.into_iter().collect()
}

/// Relies on the `proc_macro2::TokenTree` accessors — `Ident`/`Literal`
/// rendering via `to_string`, `Punct::as_char` and `Punct::spacing`,
/// `Group::delimiter`, `Group::to_string` and `Group::stream` — one arm
/// per variant, moving each token's data across.
#[verifier::external_body]
pub fn tree_data(t: proc_macro2::TokenTree) -> (r: RawTree) {
    match t {
        TokenTree::Ident(i) => RawTree::Ident { text: i.to_string().chars().collect() },
        TokenTree::Punct(p) => RawTree::Punct { ch: p.as_char(), joint: matches!(p.spacing(), Spacing::Joint) },
        TokenTree::Literal(l) => RawTree::Literal { text: l.to_string().chars().collect() },
        TokenTree::Group(g) => RawTree::Group {
            delim: match g.delimiter() {
                Delimiter::Parenthesis => Delim::Paren,
                Delimiter::Bracket => Delim::Bracket,
                Delimiter::Brace => Delim::Brace,
                Delimiter::None => Delim::Bare,
            },
            text: g.to_string().chars().collect(),
            inner: g.stream(),
        },
    }
}

/// Relies on `str::chars`: the characters of the text, in order; a `str`'s
/// view is that character sequence.
#[verifier::external_body]
pub fn chars_of(s: &str) -> (r: Vec<char>)
    ensures
        r@ == s@,
{
    s.chars().collect()
}

/// Relies on `String`'s `FromIterator<char>`: the built string holds
/// exactly these characters, in order.
#[verifier::external_body]
pub fn string_of(v: &Vec<char>) -> (r: String)
    ensures
        r@ == v@,
{
    v.iter().collect()
}

} // verus!
