//! Source positions and positioned diagnostics.
//!
//! Every parsed node carries a `Span`: an immutable half-open range of
//! positions in the original annotation source. Validation never stops at
//! the first failure: each pass appends to a growing list of `Diagnostic`
//! values, and a pass succeeds only if that list stays empty.

use vstd::prelude::*;

verus! {

/// A half-open range of positions in the original source text.
#[derive(Clone, Copy, Debug, PartialEq, Eq, Structural)]
pub struct Span {
    pub lo: usize,
    pub hi: usize,
}

impl Span {
    pub fn new(lo: usize, hi: usize) -> (r: Span)
        ensures
            r == (Span { lo, hi }),
    {
        Span { lo, hi }
    }

    /// The span that covers both `self` and `other`.
    pub fn join(self, other: Span) -> (r: Span)
        ensures
            r == self.spec_join(other),
    {
        Span {
            lo: if self.lo <= other.lo {
                self.lo
            } else {
                other.lo
            },
            hi: if self.hi >= other.hi {
                self.hi
            } else {
                other.hi
            },
        }
    }

    pub open spec fn spec_join(self, other: Span) -> Span {
        Span {
            lo: if self.lo <= other.lo {
                self.lo
            } else {
                other.lo
            },
            hi: if self.hi >= other.hi {
                self.hi
            } else {
                other.hi
            },
        }
    }
}

/// What went wrong; one variant per failure class.
#[derive(Clone, Copy, Debug, PartialEq, Eq, Structural)]
pub enum DiagKind {
    /// The annotation itself is malformed.
    Syntax,
    /// A declared name does not occur in the parameter list.
    MissingArgument,
    /// A parameter name is bound by more than one declaration.
    DuplicateArgument,
    /// A case-bound parameter, but the case set is empty.
    NoCasesForArgument,
    /// A case tuple whose arity differs from the number of case-bound
    /// parameters.
    WrongCaseSignature,
    /// A matrix value list with no entries.
    EmptyValuesList,
    /// A `partial_` modifier whose suffix is not a valid position.
    InvalidPartialSyntax,
    /// `default`, or the same `partial_N`, declared more than once.
    RepeatedDefaultOrPartial,
    /// A future-tagged parameter whose type cannot be re-expressed as a
    /// deferred computation.
    TypeNotEligibleForFuture,
    /// The future tag applied more than once to one parameter.
    RepeatedFutureTag,
}

/// One positioned failure. The message is carried as plain characters so
/// that contracts can speak about it directly.
#[derive(Debug)]
pub struct Diagnostic {
    pub kind: DiagKind,
    pub message: Vec<char>,
    pub span: Span,
}

/// The ghost mirror of a diagnostic.
#[verifier::ext_equal]
pub struct DiagM {
    pub kind: DiagKind,
    pub message: Seq<char>,
    pub span: Span,
}

impl View for Diagnostic {
    type V = DiagM;

    open spec fn view(&self) -> DiagM {
        DiagM { kind: self.kind, message: self.message@, span: self.span }
    }
}

impl Diagnostic {
    pub fn new(kind: DiagKind, message: Vec<char>, span: Span) -> (r: Diagnostic)
        ensures
            r.kind == kind,
            r.message == message,
            r.span == span,
    {
        Diagnostic { kind, message, span }
    }
}

} // verus!
