mod defs;
mod error;
pub mod laws;
mod resolutions;
mod resolve;
pub mod rules;
mod scope;
mod ty;

pub use defs::{
    fields_view, fn_slots_view, ty_slots_view, var_slots_view, Definitions,
    DefsView, FnDef, FnDefView, FnId, TyDef, TyDefView, TyId, VarDef, VarId,
};
pub use error::ResolutionError;
pub use resolutions::{node_tys_view, Resolutions, ResolutionsView};
pub use scope::{
    lookup_fn_in, lookup_type_in, lookup_var_in, scopes_view, tys_map_view, Scope, ScopeKind,
    ScopeView, Scopes, ScopesView, SymTable, TableView,
};
pub use ty::{copy_ty, copy_tys, lemma_tys_view, ty_eq, ty_view, tys_view, BuiltinTy, Ty, TyView};
pub use resolve::Env;
