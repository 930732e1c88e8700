// This module handles all error related logic.
// Errors are collected as they are found and emitted together at the end of
// each stage.
use vstd::prelude::*;

verus! {

/// The errors found by a stage, in the order in which they were found.
pub struct Diagnostics<E>(Vec<E>);

impl<E> View for Diagnostics<E> {
    type V = Seq<E>;

    closed spec fn view(&self) -> Seq<E> {
        self.0@
    }
}

impl<E> Diagnostics<E> {
    pub fn new() -> (r: Self)
        ensures
            r@ == Seq::<E>::empty(),
    {
        Self(Vec::new())
    }

    pub fn push(&mut self, e: E)
        ensures
            final(self)@ == old(self)@.push(e),
    {
        self.0.push(e);
    }

    /// The errors, in the order in which they were pushed.
    pub fn errors(&self) -> (r: &Vec<E>)
        ensures
            r@ == self@,
    {
        &self.0
    }
}

impl<E> Default for Diagnostics<E> {
    fn default() -> (r: Self)
        ensures
            r@ == Seq::<E>::empty(),
    {
        Self::new()
    }
}

} // verus!
