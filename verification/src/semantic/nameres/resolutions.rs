use vstd::prelude::*;

use rustc_hash::FxHashMap;

use crate::semantic::nameres::ty::{Ty, TyView};
use crate::semantic::node::NodeId;
use crate::semantic::parser::tree::Either;

use super::{FnId, VarId};

verus! {

/// What each resolved node of the syntax tree denotes, by node id: the type
/// that a type node names, the id given to a function, and the variable or
/// function that a name refers to.
pub struct Resolutions {
    pub tys: FxHashMap<NodeId, Ty>,
    pub fns: FxHashMap<NodeId, FnId>,
    pub vars: FxHashMap<NodeId, Either<VarId, FnId>>,
}

pub struct ResolutionsView {
    pub tys: Map<NodeId, TyView>,
    pub fns: Map<NodeId, FnId>,
    pub vars: Map<NodeId, Either<VarId, FnId>>,
}

pub open spec fn node_tys_view(m: Map<NodeId, Ty>) -> Map<NodeId, TyView> {
    m.map_values(|t: Ty| t@)
}

impl View for Resolutions {
    type V = ResolutionsView;

    open spec fn view(&self) -> ResolutionsView {
        ResolutionsView { tys: node_tys_view(self.tys@), fns: self.fns@, vars: self.vars@ }
    }
}

impl ResolutionsView {
    pub open spec fn empty() -> ResolutionsView {
        ResolutionsView { tys: Map::empty(), fns: Map::empty(), vars: Map::empty() }
    }
}

impl Default for Resolutions {
    fn default() -> (r: Self)
        ensures
            r@ == ResolutionsView::empty(),
    {
        let r = Resolutions {
            tys: FxHashMap::default(),
            fns: FxHashMap::default(),
            vars: FxHashMap::default(),
        };
        assert(r@.tys =~= Map::<NodeId, TyView>::empty());
        r
    }
}

} // verus!
