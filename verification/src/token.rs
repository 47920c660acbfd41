//! The annotation token surface.
//!
//! An annotation reaches the engine as a sequence of tokens. A `Token` is
//! an identifier, a single punctuation character, a literal, or a
//! delimited group. Value expressions are never interpreted here: an
//! expression is just a run of tokens, kept as its source text. Inside a
//! group one level of structure is enough for the grammar (splitting on
//! top-level commas, reading identifier lists), so group members are
//! `Leaf` values: a nested group is kept whole, as an `Atom` carrying its
//! rendered text.

use vstd::prelude::*;
use crate::diag::Span;

verus! {

/// The delimiter of a group. `Bare` is an invisible delimiter, as around
/// tokens substituted for a macro variable.
#[derive(Clone, Copy, Debug, PartialEq, Eq, Structural)]
pub enum Delim {
    Paren,
    Bracket,
    Brace,
    Bare,
}

/// A token inside a group: one level deep, a nested group stays whole.
#[verifier::ext_equal]
#[derive(Debug, Clone)]
pub enum Leaf {
    Ident { text: Vec<char>, span: Span },
    Punct { ch: char, joint: bool, span: Span },
    Literal { text: Vec<char>, span: Span },
    /// A nested group, carried as its rendered source text.
    Atom { text: Vec<char>, span: Span },
}

/// A top-level annotation token.
#[verifier::ext_equal]
#[derive(Debug, Clone)]
pub enum Token {
    Ident { text: Vec<char>, span: Span },
    Punct { ch: char, joint: bool, span: Span },
    Literal { text: Vec<char>, span: Span },
    Group { delim: Delim, inner: Vec<Leaf>, text: Vec<char>, span: Span },
}

impl Leaf {
    pub open spec fn spec_span(self) -> Span {
        match self {
            Leaf::Ident { span, .. } => span,
            Leaf::Punct { span, .. } => span,
            Leaf::Literal { span, .. } => span,
            Leaf::Atom { span, .. } => span,
        }
    }

    pub fn span(&self) -> (r: Span)
        ensures
            r == self.spec_span(),
    {
        match self {
            Leaf::Ident { span, .. } => *span,
            Leaf::Punct { span, .. } => *span,
            Leaf::Literal { span, .. } => *span,
            Leaf::Atom { span, .. } => *span,
        }
    }

    /// The token's own text.
    pub open spec fn txt(self) -> Seq<char> {
        match self {
            Leaf::Ident { text, .. } => text@,
            Leaf::Punct { ch, .. } => seq![ch],
            Leaf::Literal { text, .. } => text@,
            Leaf::Atom { text, .. } => text@,
        }
    }

    /// What separates this token from the next one when a run of tokens is
    /// rendered back to text: nothing after a joint punctuation character
    /// (so multi-character operators such as `::` stay glued), one space
    /// otherwise.
    pub open spec fn glue(self) -> Seq<char> {
        if self is Punct && self->Punct_joint {
            seq![]
        } else {
            seq![' ']
        }
    }

    pub open spec fn is_comma(self) -> bool {
        self is Punct && self->Punct_ch == ','
    }
}

impl Token {
    pub open spec fn spec_span(self) -> Span {
        match self {
            Token::Ident { span, .. } => span,
            Token::Punct { span, .. } => span,
            Token::Literal { span, .. } => span,
            Token::Group { span, .. } => span,
        }
    }

    pub fn span(&self) -> (r: Span)
        ensures
            r == self.spec_span(),
    {
        match self {
            Token::Ident { span, .. } => *span,
            Token::Punct { span, .. } => *span,
            Token::Literal { span, .. } => *span,
            Token::Group { span, .. } => *span,
        }
    }

    /// The token's own text; a group carries its rendered text.
    pub open spec fn txt(self) -> Seq<char> {
        match self {
            Token::Ident { text, .. } => text@,
            Token::Punct { ch, .. } => seq![ch],
            Token::Literal { text, .. } => text@,
            Token::Group { text, .. } => text@,
        }
    }

    /// See `Leaf::glue`.
    pub open spec fn glue(self) -> Seq<char> {
        if self is Punct && self->Punct_joint {
            seq![]
        } else {
            seq![' ']
        }
    }

    pub open spec fn is_comma(self) -> bool {
        self is Punct && self->Punct_ch == ','
    }

    pub open spec fn is_ident(self) -> bool {
        self is Ident
    }

    /// A lone `=`, the mark of a value item. A joint `=` would begin a
    /// multi-character operator such as `==` and does not count.
    pub open spec fn is_eq_alone(self) -> bool {
        self is Punct && self->Punct_ch == '=' && !self->Punct_joint
    }

    pub open spec fn is_paren_group(self) -> bool {
        self is Group && self->Group_delim == Delim::Paren
    }
}

/// The text of a run of group members: each token's text, with a space
/// after every token that is not a joint punctuation character.
pub open spec fn leaves_text(s: Seq<Leaf>) -> Seq<char>
    decreases s.len(),
{
    if s.len() == 0 {
        seq![]
    } else if s.len() == 1 {
        s[0].txt()
    } else {
        s[0].txt() + s[0].glue() + leaves_text(s.drop_first())
    }
}

/// The text of a run of top-level tokens, under the same spacing rule.
pub open spec fn tokens_text(s: Seq<Token>) -> Seq<char>
    decreases s.len(),
{
    if s.len() == 0 {
        seq![]
    } else if s.len() == 1 {
        s[0].txt()
    } else {
        s[0].txt() + s[0].glue() + tokens_text(s.drop_first())
    }
}

/// Append a copy of `src` to `out`.
pub fn extend_chars(out: &mut Vec<char>, src: &Vec<char>)
    ensures
        final(out)@ == old(out)@ + src@,
{
    let mut i: usize = 0;
    while i < src.len()
        invariant
            i <= src.len(),
            out@ == old(out)@ + src@.subrange(0, i as int),
        decreases src.len() - i,
    {
        out.push(src[i]);
        i += 1;
        proof {
            assert(out@ =~= old(out)@ + src@.subrange(0, i as int));
        }
    }
    proof {
        assert(out@ =~= old(out)@ + src@);
    }
}

/// A fresh copy of a character vector.
pub fn copy_chars(v: &Vec<char>) -> (r: Vec<char>)
    ensures
        r@ == v@,
{
    let mut out: Vec<char> = Vec::new();
    extend_chars(&mut out, v);
    out
}

/// Whether two character vectors hold the same text.
pub fn chars_eq(a: &Vec<char>, b: &Vec<char>) -> (r: bool)
    ensures
        r == (a@ == b@),
{
    if a.len() != b.len() {
        proof {
            assert(a@ != b@);
        }
        return false;
    }
    let mut i: usize = 0;
    while i < a.len()
        invariant
            i <= a.len(),
            a@.len() == b@.len(),
            forall|k: int| 0 <= k < i ==> a@[k] == b@[k],
        decreases a.len() - i,
    {
        if a[i] != b[i] {
            return false;
        }
        i += 1;
    }
    proof {
        assert(a@ =~= b@);
    }
    true
}

impl Leaf {
    /// This token's contribution to a rendered run: its text, then its glue.
    pub fn piece(&self, out: &mut Vec<char>)
        ensures
            final(out)@ == old(out)@ + self.txt() + self.glue(),
    {
        match self {
            Leaf::Ident { text, .. } => {
                extend_chars(out, text);
                out.push(' ');
            },
            Leaf::Punct { ch, joint, .. } => {
                out.push(*ch);
                if !*joint {
                    out.push(' ');
                }
                proof {
                    assert(out@ =~= old(out)@ + self.txt() + self.glue());
                }
            },
            Leaf::Literal { text, .. } => {
                extend_chars(out, text);
                out.push(' ');
            },
            Leaf::Atom { text, .. } => {
                extend_chars(out, text);
                out.push(' ');
            },
        }
        proof {
            assert(out@ =~= old(out)@ + self.txt() + self.glue());
        }
    }
}

impl Token {
    /// This token's contribution to a rendered run: its text, then its glue.
    pub fn piece(&self, out: &mut Vec<char>)
        ensures
            final(out)@ == old(out)@ + self.txt() + self.glue(),
    {
        match self {
            Token::Ident { text, .. } => {
                extend_chars(out, text);
                out.push(' ');
            },
            Token::Punct { ch, joint, .. } => {
                out.push(*ch);
                if !*joint {
                    out.push(' ');
                }
            },
            Token::Literal { text, .. } => {
                extend_chars(out, text);
                out.push(' ');
            },
            Token::Group { text, .. } => {
                extend_chars(out, text);
                out.push(' ');
            },
        }
        proof {
            assert(out@ =~= old(out)@ + self.txt() + self.glue());
        }
    }
}

/// The rendered text of `v[from..to]`.
pub fn render_leaves(v: &Vec<Leaf>, from: usize, to: usize) -> (r: Vec<char>)
    requires
        from <= to <= v@.len(),
    ensures
        r@ == leaves_text(v@.subrange(from as int, to as int)),
    decreases to - from,
{
    if from >= to {
        Vec::new()
    } else if from + 1 == to {
        let mut out: Vec<char> = Vec::new();
        match &v[from] {
            Leaf::Ident { text, .. } => extend_chars(&mut out, text),
            Leaf::Punct { ch, .. } => out.push(*ch),
            Leaf::Literal { text, .. } => extend_chars(&mut out, text),
            Leaf::Atom { text, .. } => extend_chars(&mut out, text),
        }
        proof {
            assert(out@ =~= leaves_text(v@.subrange(from as int, to as int)));
        }
        out
    } else {
        let mut out: Vec<char> = Vec::new();
        v[from].piece(&mut out);
        let mut rest = render_leaves(v, from + 1, to);
        out.append(&mut rest);
        proof {
            assert(v@.subrange(from as int, to as int).drop_first() =~= v@.subrange(
                from + 1,
                to as int,
            ));
            assert(out@ =~= leaves_text(v@.subrange(from as int, to as int)));
        }
        out
    }
}

/// The rendered text of `v[from..to]`.
pub fn render_tokens(v: &Vec<Token>, from: usize, to: usize) -> (r: Vec<char>)
    requires
        from <= to <= v@.len(),
    ensures
        r@ == tokens_text(v@.subrange(from as int, to as int)),
    decreases to - from,
{
    if from >= to {
        Vec::new()
    } else if from + 1 == to {
        let mut out: Vec<char> = Vec::new();
        match &v[from] {
            Token::Ident { text, .. } => extend_chars(&mut out, text),
            Token::Punct { ch, .. } => out.push(*ch),
            Token::Literal { text, .. } => extend_chars(&mut out, text),
            Token::Group { text, .. } => extend_chars(&mut out, text),
        }
        proof {
            assert(out@ =~= tokens_text(v@.subrange(from as int, to as int)));
        }
        out
    } else {
        let mut out: Vec<char> = Vec::new();
        v[from].piece(&mut out);
        let mut rest = render_tokens(v, from + 1, to);
        out.append(&mut rest);
        proof {
            assert(v@.subrange(from as int, to as int).drop_first() =~= v@.subrange(
                from + 1,
                to as int,
            ));
            assert(out@ =~= tokens_text(v@.subrange(from as int, to as int)));
        }
        out
    }
}

impl Leaf {
    pub fn comma(&self) -> (r: bool)
        ensures
            r == self.is_comma(),
    {
        match self {
            Leaf::Punct { ch, .. } => *ch == ',',
            _ => false,
        }
    }

    pub fn ident(&self) -> (r: bool)
        ensures
            r == (self is Ident),
    {
        match self {
            Leaf::Ident { .. } => true,
            _ => false,
        }
    }
}

impl Token {
    pub fn comma(&self) -> (r: bool)
        ensures
            r == self.is_comma(),
    {
        match self {
            Token::Punct { ch, .. } => *ch == ',',
            _ => false,
        }
    }

    pub fn ident(&self) -> (r: bool)
        ensures
            r == self.is_ident(),
    {
        match self {
            Token::Ident { .. } => true,
            _ => false,
        }
    }

    pub fn eq_alone(&self) -> (r: bool)
        ensures
            r == self.is_eq_alone(),
    {
        match self {
            Token::Punct { ch, joint, .. } => *ch == '=' && !*joint,
            _ => false,
        }
    }

    pub fn paren_group(&self) -> (r: bool)
        ensures
            r == self.is_paren_group(),
    {
        match self {
            Token::Group { delim, .. } => match delim {
                Delim::Paren => true,
                _ => false,
            },
            _ => false,
        }
    }

    pub fn colon(&self) -> (r: bool)
        ensures
            r == (self is Punct && self->Punct_ch == ':'),
    {
        match self {
            Token::Punct { ch, .. } => *ch == ':',
            _ => false,
        }
    }

    pub fn joint_colon(&self) -> (r: bool)
        ensures
            r == (self is Punct && self->Punct_ch == ':' && self->Punct_joint),
    {
        match self {
            Token::Punct { ch, joint, .. } => *ch == ':' && *joint,
            _ => false,
        }
    }

    pub fn punct_char(&self, c: char) -> (r: bool)
        ensures
            r == (self is Punct && self->Punct_ch == c),
    {
        match self {
            Token::Punct { ch, .. } => *ch == c,
            _ => false,
        }
    }

    /// The token's own text, as a fresh vector.
    pub fn text_of(&self) -> (r: Vec<char>)
        ensures
            r@ == self.txt(),
    {
        let mut out: Vec<char> = Vec::new();
        match self {
            Token::Ident { text, .. } => extend_chars(&mut out, text),
            Token::Punct { ch, .. } => out.push(*ch),
            Token::Literal { text, .. } => extend_chars(&mut out, text),
            Token::Group { text, .. } => extend_chars(&mut out, text),
        }
        out
    }
}

impl Leaf {
    /// The token's own text, as a fresh vector.
    pub fn text_of(&self) -> (r: Vec<char>)
        ensures
            r@ == self.txt(),
    {
        let mut out: Vec<char> = Vec::new();
        match self {
            Leaf::Ident { text, .. } => extend_chars(&mut out, text),
            Leaf::Punct { ch, .. } => out.push(*ch),
            Leaf::Literal { text, .. } => extend_chars(&mut out, text),
            Leaf::Atom { text, .. } => extend_chars(&mut out, text),
        }
        out
    }
}

} // verus!
