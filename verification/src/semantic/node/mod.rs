use vstd::prelude::*;

mod id;
mod span;

pub use id::{FileId, Id, NodeId};
pub use span::{Span, Spanned};

verus! {

/// A syntax tree node: a value, where it stands in the source, and its id.
#[derive(Debug)]
pub struct Node<T> {
    pub value: T,
    pub span: Span,
    pub id: Id<T>,
}

impl<T> Node<T> {
    pub open spec fn spec_value(self) -> T {
        self.value
    }

    pub open spec fn spec_span(self) -> Span {
        self.span
    }

    pub open spec fn spec_id(self) -> NodeId {
        self.id.node()
    }

    pub fn new(value: T, span: Span, id: Id<T>) -> (r: Self)
        ensures
            r.spec_value() == value,
            r.spec_span() == span,
            r.spec_id() == id.node(),
    {
        Self { value, span, id }
    }

    pub fn value(&self) -> (r: &T)
        ensures
            *r == self.spec_value(),
    {
        &self.value
    }

    pub fn value_mut(&mut self) -> (r: &mut T)
        ensures
            *r == old(self).spec_value(),
            final(self).spec_value() == *final(r),
            final(self).spec_span() == old(self).spec_span(),
            final(self).spec_id() == old(self).spec_id(),
    {
        &mut self.value
    }

    pub fn span(&self) -> (r: Span)
        ensures
            r == self.spec_span(),
    {
        self.span
    }

    pub fn id(&self) -> (r: Id<T>)
        ensures
            r.node() == self.spec_id(),
    {
        self.id.copied()
    }
}

pub type Ref<T> = Node<Box<T>>;

} // verus!
