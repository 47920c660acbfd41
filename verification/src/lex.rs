//! From annotation text to the token surface.
//!
//! proc-macro2's lexer turns the text into token trees (behind trusted
//! wrappers in `outside`); this verified adapter flattens them into the
//! library's tokens. Groups keep one level of structure — that is all the
//! annotation grammar needs — and a group nested deeper is kept whole as
//! an `Atom`. Every token is given a fresh position, in reading order, so
//! diagnostics can point back at it.

use vstd::prelude::*;
use crate::diag::{Diagnostic, DiagKind, Span};
use crate::outside::{chars_of, lex_stream, stream_trees, tree_data, RawTree};
use crate::token::{Leaf, Token};

verus! {

/// The group members of one lexed stream, with positions counted on from
/// `*pos`. A group nested inside becomes a single `Atom` member.
fn leaves_of_stream(ts: proc_macro2::TokenStream, pos: &mut usize) -> (r: Vec<Leaf>)
    ensures
        *old(pos) <= *final(pos),
{
    let mut trees = stream_trees(ts);
    let mut out: Vec<Leaf> = Vec::new();
    let ghost start = *pos;
    while trees.len() > 0
        invariant
            start <= *pos,
        decreases trees@.len(),
    {
        let t = trees.remove(0);
        let here = Span { lo: *pos, hi: if *pos < usize::MAX { *pos + 1 } else { *pos } };
        if *pos < usize::MAX {
            *pos = *pos + 1;
        }
        match tree_data(t) {
            RawTree::Ident { text } => out.push(Leaf::Ident { text, span: here }),
            RawTree::Punct { ch, joint } => out.push(Leaf::Punct { ch, joint, span: here }),
            RawTree::Literal { text } => out.push(Leaf::Literal { text, span: here }),
            RawTree::Group { text, .. } => out.push(Leaf::Atom { text, span: here }),
        }
    }
    out
}

/// The top-level tokens of one lexed stream, with positions counted on
/// from `*pos`.
fn tokens_of_stream(ts: proc_macro2::TokenStream, pos: &mut usize) -> (r: Vec<Token>) {
    let mut trees = stream_trees(ts);
    let mut out: Vec<Token> = Vec::new();
    while trees.len() > 0
        decreases trees@.len(),
    {
        let t = trees.remove(0);
        let here = Span { lo: *pos, hi: if *pos < usize::MAX { *pos + 1 } else { *pos } };
        if *pos < usize::MAX {
            *pos = *pos + 1;
        }
        match tree_data(t) {
            RawTree::Ident { text } => out.push(Token::Ident { text, span: here }),
            RawTree::Punct { ch, joint } => out.push(Token::Punct { ch, joint, span: here }),
            RawTree::Literal { text } => out.push(Token::Literal { text, span: here }),
            RawTree::Group { delim, text, inner } => {
                let members = leaves_of_stream(inner, pos);
                let span = Span { lo: here.lo, hi: *pos };
                out.push(Token::Group { delim, inner: members, text, span });
            },
        }
    }
    out
}

/// The token surface of a piece of annotation text. Fails, with a
/// positioned syntax diagnostic, when the text does not lex.
pub fn tokens_of_text(text: &str) -> (r: Result<Vec<Token>, Diagnostic>) {
    match lex_stream(text) {
        None => Err(
            Diagnostic::new(
                DiagKind::Syntax,
                chars_of("the annotation is not lexable"),
                Span { lo: 0, hi: 0 },
            ),
        ),
        Some(ts) => {
            let mut pos: usize = 0;
            Ok(tokens_of_stream(ts, &mut pos))
        },
    }
}

} // verus!
