use std::sync::Arc;
use vstd::prelude::*;

verus! {

#[derive(Debug, Clone, Copy, PartialEq, Eq, Hash, Structural)]
pub enum Either<A, B> {
    Left(A),
    Right(B),
}

pub type Tree<Tok> = Arc<TreeData<Tok>>;

pub struct TreeData<Tok> {
    children: Vec<Either<Tree<Tok>, Tok>>,
}

pub struct Token<Kind, Repr> {
    kind: Kind,
    repr: Repr,
}

} // verus!
