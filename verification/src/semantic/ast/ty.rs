use vstd::prelude::*;

use super::{Ident, RType};

verus! {

pub enum Type {
    Named(Ident),
    Pointer(RType),
    Array(RType),
    Fn(RType, Vec<RType>),
}

} // verus!
