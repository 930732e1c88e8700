use chumsky::span::SimpleSpan;
use vstd::prelude::*;

verus! {

/// chumsky's `SimpleSpan`: the source range of a node. The front end carries
/// it from the syntax tree into definitions and diagnostics and never reads it.
#[verifier::external_type_specification]
#[verifier::external_body]
#[verifier::reject_recursive_types(T)]
#[verifier::reject_recursive_types(C)]
pub struct ExSimpleSpan<T, C>(SimpleSpan<T, C>);

pub type Span = SimpleSpan;

/// A value together with the source range it came from.
#[derive(Debug, PartialEq, Eq, Hash)]
pub struct Spanned<T> {
    pub span: Span,
    pub value: T,
}

impl<T> Spanned<T> {
    pub fn new(span: Span, value: T) -> (r: Self)
        ensures
            r.span == span,
            r.value == value,
    {
        Self { span, value }
    }

    pub fn span(&self) -> (r: Span)
        ensures
            r == self.span,
    {
        self.span
    }

    pub fn value(&self) -> (r: &T)
        ensures
            *r == self.value,
    {
        &self.value
    }
}

} // verus!
