//! Name resolution: walking the syntax tree, giving each definition an id and
//! each name the definition it refers to.
use vstd::prelude::*;

use crate::semantic::ast::{
    self, dup_pairs, named_keys, uniq_positions, unique_named_spec, Ident, Symbol,
};
use crate::semantic::diagnostics::Diagnostics;
use crate::semantic::fxmap::fx_insert;
use crate::semantic::node::{NodeId, Span};
use crate::semantic::parser::tree::Either;

use super::defs::{
    fields_view, into_boxed_slice, Definitions, DefsView, FnDef, FnId, TyDef, TyId, VarDef, VarId,
};
use super::error::ResolutionError;
use super::resolutions::{node_tys_view, Resolutions};
use super::rules::{
    all_defined, arg_types, defined_from, defs_kept, field_dup_errors, fn_slot, fresh,
    hoisted_matches, law_lookup_fn_declared, law_lookup_type_declared, law_lookup_var_declared,
    lemma_current_ok, lemma_defined_trans, lemma_table_bind, lemma_table_ok_grow,
    lemma_wf_enter_exit, lemma_wf_grow, lemma_wf_with_current, newest, nr_bind_args, nr_declare_fn,
    nr_declare_item, nr_declare_items, nr_declare_type, nr_define_alias, nr_define_data,
    nr_define_enum, nr_define_function, nr_define_item, nr_define_items, nr_resolve_block,
    nr_resolve_expr, nr_resolve_exprs, nr_resolve_function, nr_resolve_items,
    nr_resolve_scoped_block, nr_resolve_stmt, nr_resolve_stmts, nr_resolve_type, nr_resolve_types,
    pending, slot_defined, slot_open, ty_ok, ty_slot, type_span, tys_ok, unique_fields_of,
    variant_dup_errors, variant_names, Hoisted, NrState,
};
use super::scope::{ScopeKind, Scopes};
use super::ty::{copy_ty, tys_view, Ty, TyView};

verus! {

/// The state of name resolution: the open scopes, the definitions found so
/// far, what each resolved node denotes, and the errors found.
pub struct Env {
    scopes: Scopes,
    defs: Definitions,
    resolutions: Resolutions,
    diagnostics: Diagnostics<ResolutionError>,
}

impl Default for Env {
    fn default() -> (r: Self)
        ensures
            r.state() == NrState::initial(),
            r.wf(),
    {
        Self::new()
    }
}

impl Env {
    /// The environment as a value.
    pub closed spec fn state(&self) -> NrState {
        NrState {
            scopes: self.scopes@,
            defs: self.defs@,
            res: self.resolutions@,
            diags: self.diagnostics@,
        }
    }

    /// Every name bound in a scope denotes a declared type or function, and
    /// every type, function and variable id handed out has its definition.
    pub open spec fn wf(&self) -> bool {
        self.state().wf() && all_defined(self.state().defs)
    }

    /// An environment with no scope open, no definition, no resolution and
    /// no error.
    pub fn new() -> (r: Self)
        ensures
            r.state() == NrState::initial(),
            r.wf(),
    {
        Self {
            scopes: Scopes::new(),
            defs: Definitions::default(),
            resolutions: Resolutions::default(),
            diagnostics: Diagnostics::default(),
        }
    }

    /// The definitions found so far.
    pub fn definitions(&self) -> (r: &Definitions)
        ensures
            r@ == self.state().defs,
    {
        &self.defs
    }

    /// What each resolved node denotes.
    pub fn resolutions(&self) -> (r: &Resolutions)
        ensures
            r@ == self.state().res,
    {
        &self.resolutions
    }

    /// The errors found so far, in order.
    pub fn diagnostics(&self) -> (r: &Diagnostics<ResolutionError>)
        ensures
            r@ == self.state().diags,
    {
        &self.diagnostics
    }

    /// The definitions, the resolutions and the errors, for the stages that
    /// follow.
    pub fn into_parts(self) -> (r: (Definitions, Resolutions, Diagnostics<ResolutionError>))
        ensures
            r.0@ == self.state().defs,
            r.1@ == self.state().res,
            r.2@ == self.state().diags,
    {
        (self.defs, self.resolutions, self.diagnostics)
    }

    fn emit_unresolved_name(&mut self, name: &Ident)
        ensures
            final(self).state() == old(self).state().emit(
                ResolutionError::UnknownName { span: name.span, name: name.value },
            ),
    {
        self.diagnostics.push(ResolutionError::UnknownName { span: name.span(), name: name.value });
    }

    fn emit_unknown_type(&mut self, name: &Ident)
        ensures
            final(self).state() == old(self).state().emit(
                ResolutionError::UnknownType { span: name.span, name: name.value },
            ),
    {
        self.diagnostics.push(ResolutionError::UnknownType { span: name.span(), name: name.value });
    }

    /// Resolves a type node: a name is looked up through the scopes, and one
    /// that is not found is reported and resolves to `Ty::Unknown`. Every
    /// node of the type records what it resolved to.
    fn resolve_type(&mut self, ty: &ast::RType) -> (r: Ty)
        requires
            old(self).state().wf(),
        ensures
            (final(self).state(), r@) == nr_resolve_type(old(self).state(), *ty),
            final(self).state().scopes == old(self).state().scopes,
            final(self).state().defs == old(self).state().defs,
            final(self).state().wf(),
            ty_ok(r@, final(self).state().defs),
        decreases *ty, 0nat,
    {
        let ghost s0 = self.state();
        let resolved_ty = match &*ty.value {
            ast::Type::Named(node) => match self.scopes.lookup_type(&node.value) {
                Some(t) => {
                    proof {
                        law_lookup_type_declared(s0.scopes.root, s0.scopes.scopes, s0.defs, node.value);
                    }
                    t
                },
                None => {
                    self.emit_unknown_type(node);
                    Ty::Unknown
                },
            },
            ast::Type::Pointer(node) => Ty::Pointer(Box::new(self.resolve_type(node))),
            ast::Type::Array(node) => Ty::Array(Box::new(self.resolve_type(node))),
            ast::Type::Fn(node, nodes) => {
                let ret = self.resolve_type(node);
                let params = self.resolve_types(nodes);
                Ty::Fn(Box::new(ret), params)
            },
        };
        let ghost before = self.resolutions.tys@;
        let ghost s1 = self.state();
        fx_insert(&mut self.resolutions.tys, ty.id.untyped(), copy_ty(&resolved_ty));
        proof {
            assert(node_tys_view(self.resolutions.tys@) =~= node_tys_view(before).insert(
                ty.id.node(),
                resolved_ty@,
            ));
            let r = self.state().res;
            assert(ty_ok(resolved_ty@, s1.defs));
            assert forall|k: NodeId| #[trigger] r.tys.contains_key(k) implies ty_ok(r.tys[k], s1.defs) by {
                if k != ty.id.node() {
                    assert(s1.res.tys.contains_key(k));
                }
            }
            assert(r.fns == s1.res.fns && r.vars == s1.res.vars);
        }
        resolved_ty
    }

    /// Resolves type nodes in order.
    fn resolve_types(&mut self, tys: &Vec<ast::RType>) -> (r: Vec<Ty>)
        requires
            old(self).state().wf(),
        ensures
            (final(self).state(), tys_view(r@)) == nr_resolve_types(old(self).state(), tys@),
            final(self).state().scopes == old(self).state().scopes,
            final(self).state().defs == old(self).state().defs,
            final(self).state().wf(),
            tys_ok(tys_view(r@), final(self).state().defs),
        decreases tys@, 1nat,
    {
        let ghost s0 = self.state();
        let mut out: Vec<Ty> = Vec::new();
        let mut i: usize = 0;
        assert(tys@.take(0) =~= Seq::<ast::RType>::empty());
        assert(tys_view(out@) =~= Seq::<TyView>::empty());
        while i < tys.len()
            invariant
                i <= tys@.len(),
                (self.state(), tys_view(out@)) == nr_resolve_types(s0, tys@.take(i as int)),
                self.state().scopes == s0.scopes,
                self.state().defs == s0.defs,
                self.state().wf(),
                tys_ok(tys_view(out@), s0.defs),
            decreases tys@.len() - i,
        {
            proof {
                assert(tys@.take(i + 1).drop_last() =~= tys@.take(i as int));
                assert(tys@.take(i + 1).last() == tys@[i as int]);
                assert(decreases_to!(tys@ => tys@[i as int]));
            }
            let t = self.resolve_type(&tys[i]);
            let ghost before = out@;
            out.push(t);
            assert(out@.drop_last() =~= before);
            assert(tys_view(out@).drop_last() =~= tys_view(before));
            i = i + 1;
        }
        assert(tys@.take(tys@.len() as int) =~= tys@);
        out
    }

    /// Where a type that a name was already bound to was declared, if it is
    /// a declared type.
    fn type_span(&self, ty: Ty) -> (r: Option<Span>)
        requires
            ty@ matches TyView::Custom(id) ==> id.0 < self.state().defs.tys.len(),
        ensures
            type_span(self.state().defs, ty@) == Some(r),
    {
        match ty {
            Ty::Custom(id) => Some(self.defs.ty_span(id)),
            _ => None,
        }
    }

    /// Declares a type (a type definition or an alias) named `name`: a new
    /// id, bound in the innermost scope unless the name is bound there
    /// already, which is reported.
    fn declare_type_name(&mut self, name: &Ident) -> (r: TyId)
        requires
            old(self).state().wf(),
        ensures
            nr_declare_type(old(self).state(), *name) == Some((final(self).state(), Hoisted::Ty(r))),
            final(self).state().wf(),
            defs_kept(old(self).state().defs, final(self).state().defs, -1, -1),
            newest(old(self).state().defs, Hoisted::Ty(r)),
            slot_open(final(self).state().defs, Hoisted::Ty(r)),
            final(self).state().defs.fns.len() == old(self).state().defs.fns.len(),
            final(self).state().defs.vars.len() == old(self).state().defs.vars.len(),
    {
        let ghost s0 = self.state();
        proof {
            lemma_current_ok(s0);
        }
        let id = self.defs.alloc_ty(name.span());
        let ghost s1 = self.state();
        proof {
            lemma_wf_grow(s0, s1);
            lemma_table_ok_grow(s0.scopes.current(), s0.defs, s1.defs);
            lemma_table_bind(s0.scopes.current(), s1.defs, name.value, TyView::Custom(id), FnId(0), VarId(0));
        }
        let defined = self.scopes.current_scope().define_ty(name.value, Ty::Custom(id));
        proof {
            lemma_wf_with_current(s1, s0.scopes.current().bind_ty(name.value, TyView::Custom(id)).0);
        }
        match defined {
            Err(existing) => {
                let original = self.type_span(existing);
                self.diagnostics.push(
                    ResolutionError::DuplicateTypeDefinition {
                        symbol: name.value,
                        original,
                        duplicate: name.span(),
                    },
                );
            },
            Ok(()) => {},
        }
        id
    }

    fn declare_type_def(&mut self, type_def: &ast::TypeDef) -> (r: TyId)
        requires
            old(self).state().wf(),
        ensures
            nr_declare_type(old(self).state(), type_def.spec_name()) == Some(
                (final(self).state(), Hoisted::Ty(r)),
            ),
            final(self).state().wf(),
            defs_kept(old(self).state().defs, final(self).state().defs, -1, -1),
            newest(old(self).state().defs, Hoisted::Ty(r)),
            slot_open(final(self).state().defs, Hoisted::Ty(r)),
            final(self).state().defs.fns.len() == old(self).state().defs.fns.len(),
            final(self).state().defs.vars.len() == old(self).state().defs.vars.len(),
    {
        self.declare_type_name(type_def.name())
    }

    fn declare_alias(&mut self, alias: &ast::RAlias) -> (r: TyId)
        requires
            old(self).state().wf(),
        ensures
            nr_declare_type(old(self).state(), alias.value.name) == Some(
                (final(self).state(), Hoisted::Ty(r)),
            ),
            final(self).state().wf(),
            defs_kept(old(self).state().defs, final(self).state().defs, -1, -1),
            newest(old(self).state().defs, Hoisted::Ty(r)),
            slot_open(final(self).state().defs, Hoisted::Ty(r)),
            final(self).state().defs.fns.len() == old(self).state().defs.fns.len(),
            final(self).state().defs.vars.len() == old(self).state().defs.vars.len(),
    {
        self.declare_type_name(&alias.value.name)
    }

    /// Declares a function: a new id, bound in the innermost scope unless the
    /// name is bound there already, which is reported.
    fn declare_function(&mut self, func: &ast::RFunction) -> (r: FnId)
        requires
            old(self).state().wf(),
        ensures
            nr_declare_fn(old(self).state(), func.value.name) == Some(
                (final(self).state(), Hoisted::Fn(r)),
            ),
            final(self).state().wf(),
            defs_kept(old(self).state().defs, final(self).state().defs, -1, -1),
            newest(old(self).state().defs, Hoisted::Fn(r)),
            slot_open(final(self).state().defs, Hoisted::Fn(r)),
            final(self).state().defs.tys.len() == old(self).state().defs.tys.len(),
            final(self).state().defs.vars.len() == old(self).state().defs.vars.len(),
    {
        let name = &func.value.name;
        let ghost s0 = self.state();
        proof {
            lemma_current_ok(s0);
        }
        let id = self.defs.alloc_fn(name.span());
        let ghost s1 = self.state();
        proof {
            lemma_wf_grow(s0, s1);
            lemma_table_ok_grow(s0.scopes.current(), s0.defs, s1.defs);
            lemma_table_bind(s0.scopes.current(), s1.defs, name.value, TyView::Unknown, id, VarId(0));
        }
        let defined = self.scopes.current_scope().define_fn(name.value, id);
        proof {
            lemma_wf_with_current(s1, s0.scopes.current().bind_fn(name.value, id).0);
        }
        match defined {
            Err(existing) => {
                let original = self.defs.fn_span(existing);
                self.diagnostics.push(
                    ResolutionError::DuplicateFunctionDefinition {
                        symbol: name.value,
                        original,
                        duplicate: name.span(),
                    },
                );
            },
            Ok(()) => {},
        }
        id
    }

    fn declare_item(&mut self, item: &ast::Item) -> (r: Hoisted)
        requires
            old(self).state().wf(),
        ensures
            nr_declare_item(old(self).state(), *item) == Some((final(self).state(), r)),
            final(self).state().wf(),
            defs_kept(old(self).state().defs, final(self).state().defs, -1, -1),
            hoisted_matches(*item, r),
            newest(old(self).state().defs, r),
            slot_open(final(self).state().defs, r),
            final(self).state().defs.tys.len() == old(self).state().defs.tys.len() + if r is Ty {
                1int
            } else {
                0int
            },
            final(self).state().defs.fns.len() == old(self).state().defs.fns.len() + if r is Fn {
                1int
            } else {
                0int
            },
            final(self).state().defs.vars.len() == old(self).state().defs.vars.len(),
    {
        match item {
            ast::Item::TypeDef(type_def) => Hoisted::Ty(self.declare_type_def(type_def)),
            ast::Item::Alias(alias) => Hoisted::Ty(self.declare_alias(alias)),
            ast::Item::Function(func) => Hoisted::Fn(self.declare_function(func)),
        }
    }

    /// Declares the items of a scope in order, each under a new id.
    fn declare_items(&mut self, items: &Vec<ast::Item>) -> (r: Vec<Hoisted>)
        requires
            old(self).state().wf(),
        ensures
            nr_declare_items(old(self).state(), items@) == Some((final(self).state(), r@)),
            final(self).state().wf(),
            defs_kept(old(self).state().defs, final(self).state().defs, -1, -1),
            r@.len() == items@.len(),
            forall|j: int| 0 <= j < r@.len() ==> hoisted_matches(items@[j], #[trigger] r@[j]),
            forall|j: int| 0 <= j < r@.len() ==> fresh(old(self).state().defs, #[trigger] r@[j]),
            forall|j: int| 0 <= j < r@.len() ==> slot_open(final(self).state().defs, #[trigger] r@[j]),
            forall|j: int, k: int| 0 <= j < k < r@.len() ==> r@[j] != r@[k],
            pending(old(self).state().defs, final(self).state().defs, r@, 0),
            final(self).state().defs.vars.len() == old(self).state().defs.vars.len(),
    {
        let ghost s0 = self.state();
        let mut hs: Vec<Hoisted> = Vec::new();
        let mut i: usize = 0;
        assert(items@.take(0) =~= Seq::<ast::Item>::empty());
        while i < items.len()
            invariant
                i <= items@.len(),
                nr_declare_items(s0, items@.take(i as int)) == Some((self.state(), hs@)),
                self.state().wf(),
                defs_kept(s0.defs, self.state().defs, -1, -1),
                hs@.len() == i,
                forall|j: int| 0 <= j < i ==> hoisted_matches(items@[j], #[trigger] hs@[j]),
                forall|j: int| 0 <= j < i ==> fresh(s0.defs, #[trigger] hs@[j]),
                forall|j: int| 0 <= j < i ==> slot_open(self.state().defs, #[trigger] hs@[j]),
                forall|j: int, k: int| 0 <= j < k < i ==> hs@[j] != hs@[k],
                pending(s0.defs, self.state().defs, hs@, 0),
                self.state().defs.vars.len() == s0.defs.vars.len(),
            decreases items@.len() - i,
        {
            proof {
                assert(items@.take(i + 1).drop_last() =~= items@.take(i as int));
                assert(items@.take(i + 1).last() == items@[i as int]);
            }
            let ghost before = self.state();
            let ghost old_hs = hs@;
            let h = self.declare_item(&items[i]);
            hs.push(h);
            proof {
                assert forall|j: int| 0 <= j < i + 1 implies slot_open(self.state().defs, #[trigger] hs@[j]) by {
                    if j < i {
                        assert(hs@[j] == old_hs[j]);
                        assert(slot_open(before.defs, old_hs[j]));
                    }
                }
                assert forall|j: int, k: int| 0 <= j < k < i + 1 implies hs@[j] != hs@[k] by {
                    if k == i {
                        assert(slot_open(before.defs, old_hs[j]));
                    } else {
                        assert(hs@[j] == old_hs[j] && hs@[k] == old_hs[k]);
                    }
                }
                let after = self.state();
                assert forall|t: int| s0.defs.tys.len() <= t < after.defs.tys.len() implies (#[trigger] after.defs.tys[t]).1 is Some
                    || exists|j: int| 0 <= j < hs@.len() && ty_slot(#[trigger] hs@[j]) == t by {
                    if t < before.defs.tys.len() {
                        if !(before.defs.tys[t].1 is Some) {
                            let j = choose|j: int| 0 <= j < old_hs.len() && ty_slot(#[trigger] old_hs[j]) == t;
                            assert(hs@[j] == old_hs[j]);
                        }
                    } else {
                        assert(hs@[i as int] == h);
                    }
                }
                assert forall|t: int| s0.defs.fns.len() <= t < after.defs.fns.len() implies (#[trigger] after.defs.fns[t]).1 is Some
                    || exists|j: int| 0 <= j < hs@.len() && fn_slot(#[trigger] hs@[j]) == t by {
                    if t < before.defs.fns.len() {
                        if !(before.defs.fns[t].1 is Some) {
                            let j = choose|j: int| 0 <= j < old_hs.len() && fn_slot(#[trigger] old_hs[j]) == t;
                            assert(hs@[j] == old_hs[j]);
                        }
                    } else {
                        assert(hs@[i as int] == h);
                    }
                }
            }
            i = i + 1;
        }
        assert(items@.take(items@.len() as int) =~= items@);
        hs
    }

    /// Defines a declared type definition.
    fn define_type(&mut self, type_def: &ast::TypeDef, id: TyId)
        requires
            old(self).state().wf(),
            slot_open(old(self).state().defs, Hoisted::Ty(id)),
        ensures
            nr_define_item(old(self).state(), ast::Item::TypeDef(*type_def), Hoisted::Ty(id)) == Some(
                final(self).state(),
            ),
            final(self).state().wf(),
            defs_kept(old(self).state().defs, final(self).state().defs, id.0 as int, -1),
            defined_from(old(self).state().defs, final(self).state().defs),
            slot_defined(final(self).state().defs, Hoisted::Ty(id)),
    {
        match type_def {
            ast::TypeDef::Enum(enum_def) => self.define_enum(enum_def, id),
            ast::TypeDef::Data(data_def) => self.define_data(data_def, id),
        }
    }

    /// Defines a declared enum by its distinct variants; a repeated variant
    /// is reported.
    fn define_enum(&mut self, enum_def: &ast::REnumDef, id: TyId)
        requires
            old(self).state().wf(),
            slot_open(old(self).state().defs, Hoisted::Ty(id)),
        ensures
            nr_define_enum(old(self).state(), *enum_def.value, id) == Some(final(self).state()),
            final(self).state().wf(),
            defs_kept(old(self).state().defs, final(self).state().defs, id.0 as int, -1),
            defined_from(old(self).state().defs, final(self).state().defs),
            slot_defined(final(self).state().defs, Hoisted::Ty(id)),
    {
        let ghost s0 = self.state();
        let ghost vs = enum_def.value.variants@;
        let ghost errs = variant_dup_errors(vs);
        // only the distinct variants are kept; each repeated one is reported
        let (variants, dups) = enum_def.value.unique_variants();
        proof {
            assert(variant_names(vs) =~= vs.map_values(|v: Ident| v.value));
        }
        let mut i: usize = 0;
        assert(s0.diags + errs.take(0) =~= s0.diags);
        while i < dups.len()
            invariant
                i <= dups@.len(),
                dups@.len() == errs.len(),
                vs == enum_def.value.variants@,
                errs == variant_dup_errors(vs),
                forall|q: int|
                    0 <= q < dups@.len() ==> {
                        let d = dup_pairs(variant_names(vs))[q];
                        (#[trigger] dups@[q]).0 == vs[d.0] && dups@[q].1 == vs[d.1]
                    },
                self.state() == (NrState { diags: s0.diags + errs.take(i as int), ..s0 }),
            decreases dups@.len() - i,
        {
            let (orig, dup) = &dups[i];
            self.diagnostics.push(
                ResolutionError::DuplicateVariantDefinition {
                    symbol: dup.value,
                    original: orig.span(),
                    duplicate: dup.span(),
                },
            );
            assert(s0.diags + errs.take(i + 1) =~= (s0.diags + errs.take(i as int)).push(errs[i as int]));
            i = i + 1;
        }
        assert(errs.take(errs.len() as int) =~= errs);
        proof {
            let keys = variant_names(vs);
            assert(variants@ =~= uniq_positions(keys).map_values(|p: int| keys[p]));
        }
        let ghost s1 = self.state();
        self.defs.define_ty(id, TyDef::Enum { variants: into_boxed_slice(variants) });
        proof {
            lemma_wf_grow(s1, self.state());
        }
    }

    /// Defines a declared struct by its distinct fields and their resolved
    /// types; a repeated field is reported and its type is not resolved.
    fn define_data(&mut self, data_def: &ast::RDataDef, id: TyId)
        requires
            old(self).state().wf(),
            slot_open(old(self).state().defs, Hoisted::Ty(id)),
        ensures
            nr_define_data(old(self).state(), *data_def.value, id) == Some(final(self).state()),
            final(self).state().wf(),
            defs_kept(old(self).state().defs, final(self).state().defs, id.0 as int, -1),
            defined_from(old(self).state().defs, final(self).state().defs),
            slot_defined(final(self).state().defs, Hoisted::Ty(id)),
    {
        let ghost s0 = self.state();
        let ghost fs = data_def.value.fields@;
        let ghost errs = field_dup_errors(fs);
        let (kept, dups) = data_def.value.unique_fields();
        let mut i: usize = 0;
        assert(s0.diags + errs.take(0) =~= s0.diags);
        while i < dups.len()
            invariant
                i <= dups@.len(),
                dups@.len() == errs.len(),
                fs == data_def.value.fields@,
                errs == field_dup_errors(fs),
                unique_named_spec(fs, (kept@, dups@)),
                self.state() == (NrState { diags: s0.diags + errs.take(i as int), ..s0 }),
            decreases dups@.len() - i,
        {
            let (orig, dup) = &dups[i];
            proof {
                let d = dup_pairs(named_keys(fs))[i as int];
                assert(dups@[i as int].0 == fs[d.0].0 && dups@[i as int].1 == fs[d.1].0);
            }
            self.diagnostics.push(
                ResolutionError::DuplicateFieldDefinition {
                    symbol: dup.value,
                    original: orig.span(),
                    duplicate: dup.span(),
                },
            );
            assert(s0.diags + errs.take(i + 1) =~= (s0.diags + errs.take(i as int)).push(errs[i as int]));
            i = i + 1;
        }
        assert(errs.take(errs.len() as int) =~= errs);
        let ghost s1 = self.state();
        let ghost kf = unique_fields_of(fs);
        let ghost ktys = kf.map_values(|f: (Ident, ast::RType)| f.1);
        let ghost mut ts: Seq<TyView> = Seq::empty();
        let mut fields: Vec<(Symbol, Ty)> = Vec::new();
        let mut j: usize = 0;
        assert(ktys.take(0) =~= Seq::<ast::RType>::empty());
        while j < kept.len()
            invariant
                j <= kept@.len(),
                kept@.len() == kf.len(),
                kf == unique_fields_of(fs),
                ktys == kf.map_values(|f: (Ident, ast::RType)| f.1),
                fs == data_def.value.fields@,
                unique_named_spec(fs, (kept@, dups@)),
                (self.state(), ts) == nr_resolve_types(s1, ktys.take(j as int)),
                self.state().scopes == s1.scopes,
                self.state().defs == s1.defs,
                self.state().wf(),
                ts.len() == j,
                fields@.len() == j,
                forall|q: int| 0 <= q < j ==> (#[trigger] fields@[q]).0 == kf[q].0.value && fields@[q].1@ == ts[q],
            decreases kept@.len() - j,
        {
            proof {
                assert(ktys.take(j + 1).drop_last() =~= ktys.take(j as int));
                assert(ktys.take(j + 1).last() == ktys[j as int]);
            }
            let ty = self.resolve_type(kept[j].1);
            let name = kept[j].0.value;
            fields.push((name, ty));
            proof {
                ts = ts.push(fields@[j as int].1@);
            }
            j = j + 1;
        }
        assert(ktys.take(ktys.len() as int) =~= ktys);
        let ghost s2 = self.state();
        proof {
            assert(fields_view(fields@) =~= Seq::new(kf.len(), |q: int| (kf[q].0.value, ts[q])));
        }
        self.defs.define_ty(id, TyDef::Struct { fields });
        proof {
            lemma_wf_grow(s2, self.state());
        }
    }

    /// Defines a declared alias by the type it resolves to.
    fn define_alias(&mut self, alias: &ast::RAlias, id: TyId)
        requires
            old(self).state().wf(),
            slot_open(old(self).state().defs, Hoisted::Ty(id)),
        ensures
            nr_define_alias(old(self).state(), *alias.value, id) == Some(final(self).state()),
            final(self).state().wf(),
            defs_kept(old(self).state().defs, final(self).state().defs, id.0 as int, -1),
            defined_from(old(self).state().defs, final(self).state().defs),
            slot_defined(final(self).state().defs, Hoisted::Ty(id)),
    {
        let ty = self.resolve_type(&alias.value.ty);
        let ghost s1 = self.state();
        self.defs.define_ty(id, TyDef::Alias(ty));
        proof {
            lemma_wf_grow(s1, self.state());
        }
    }

    /// Resolves a whole program: its items are declared, then defined, and
    /// every function body is resolved.
    pub fn resolve(&mut self, prog: &ast::Program)
        requires
            old(self).wf(),
        ensures
            nr_resolve_items(old(self).state(), prog.items@) == Some(final(self).state()),
            final(self).wf(),
    {
        self.resolve_items(&prog.items);
    }

    /// Resolves the items of a scope: every item is declared first, so that
    /// items can refer to each other in any order, then each is defined.
    fn resolve_items(&mut self, items: &Vec<ast::Item>)
        requires
            old(self).state().wf(),
        ensures
            nr_resolve_items(old(self).state(), items@) == Some(final(self).state()),
            final(self).state().wf(),
            defs_kept(old(self).state().defs, final(self).state().defs, -1, -1),
            defined_from(old(self).state().defs, final(self).state().defs),
        decreases items@, 2nat, 0nat,
    {
        let ghost s0 = self.state();
        let declared = self.declare_items(items);
        self.define_items(items, &declared, Ghost(s0.defs));
    }

    /// Defines declared items in order; `base` is what was declared before
    /// them.
    fn define_items(&mut self, items: &Vec<ast::Item>, declared: &Vec<Hoisted>, Ghost(base): Ghost<DefsView>)
        requires
            old(self).state().wf(),
            declared@.len() == items@.len(),
            defs_kept(base, old(self).state().defs, -1, -1),
            pending(base, old(self).state().defs, declared@, 0),
            forall|j: int| 0 <= j < declared@.len() ==> hoisted_matches(items@[j], #[trigger] declared@[j]),
            forall|j: int| 0 <= j < declared@.len() ==> fresh(base, #[trigger] declared@[j]),
            forall|j: int| 0 <= j < declared@.len() ==> slot_open(old(self).state().defs, #[trigger] declared@[j]),
            forall|j: int, k: int| 0 <= j < k < declared@.len() ==> declared@[j] != declared@[k],
        ensures
            nr_define_items(old(self).state(), items@, declared@, items@.len()) == Some(final(self).state()),
            final(self).state().wf(),
            defs_kept(base, final(self).state().defs, -1, -1),
            defined_from(base, final(self).state().defs),
        decreases items@, 1nat, 0nat,
    {
        let ghost s1 = self.state();
        let mut i: usize = 0;
        while i < declared.len()
            invariant
                i <= declared@.len(),
                declared@.len() == items@.len(),
                nr_define_items(s1, items@, declared@, i as nat) == Some(self.state()),
                self.state().wf(),
                defs_kept(base, self.state().defs, -1, -1),
                pending(base, self.state().defs, declared@, i as int),
                forall|j: int| 0 <= j < declared@.len() ==> hoisted_matches(items@[j], #[trigger] declared@[j]),
                forall|j: int| 0 <= j < declared@.len() ==> fresh(base, #[trigger] declared@[j]),
                forall|j: int| i <= j < declared@.len() ==> slot_open(self.state().defs, #[trigger] declared@[j]),
                forall|j: int, k: int| 0 <= j < k < declared@.len() ==> declared@[j] != declared@[k],
            decreases declared@.len() - i,
        {
            let ghost before = self.state();
            let h = declared[i];
            proof {
                assert(decreases_to!(items@ => items@[i as int]));
            }
            self.define_item(&items[i], h);
            proof {
                let after = self.state();
                assert forall|j: int| i + 1 <= j < declared@.len() implies slot_open(after.defs, #[trigger] declared@[j]) by {
                    assert(declared@[j] != declared@[i as int]);
                    assert(slot_open(before.defs, declared@[j]));
                }
                assert forall|t: int| base.tys.len() <= t < after.defs.tys.len() implies (#[trigger] after.defs.tys[t]).1 is Some
                    || exists|j: int| i + 1 <= j < declared@.len() && ty_slot(#[trigger] declared@[j]) == t by {
                    if t < before.defs.tys.len() && t != ty_slot(h) && !(before.defs.tys[t].1 is Some) {
                        assert(before.defs.tys[t] == after.defs.tys[t]);
                        let j = choose|j: int| i <= j < declared@.len() && ty_slot(#[trigger] declared@[j]) == t;
                        assert(j != i);
                    }
                }
                assert forall|t: int| base.fns.len() <= t < after.defs.fns.len() implies (#[trigger] after.defs.fns[t]).1 is Some
                    || exists|j: int| i + 1 <= j < declared@.len() && fn_slot(#[trigger] declared@[j]) == t by {
                    if t < before.defs.fns.len() && t != fn_slot(h) && !(before.defs.fns[t].1 is Some) {
                        assert(before.defs.fns[t] == after.defs.fns[t]);
                        let j = choose|j: int| i <= j < declared@.len() && fn_slot(#[trigger] declared@[j]) == t;
                        assert(j != i);
                    }
                }
                assert forall|t: int| base.vars.len() <= t < after.defs.vars.len() implies (#[trigger] after.defs.vars[t]).1 is Some by {
                    if t < before.defs.vars.len() {
                        assert(before.defs.vars[t] == after.defs.vars[t]);
                    }
                }
            }
            i = i + 1;
        }
    }

    fn define_item(&mut self, item: &ast::Item, h: Hoisted)
        requires
            old(self).state().wf(),
            hoisted_matches(*item, h),
            slot_open(old(self).state().defs, h),
        ensures
            nr_define_item(old(self).state(), *item, h) == Some(final(self).state()),
            final(self).state().wf(),
            defs_kept(old(self).state().defs, final(self).state().defs, ty_slot(h), fn_slot(h)),
            defined_from(old(self).state().defs, final(self).state().defs),
            slot_defined(final(self).state().defs, h),
        decreases *item, 1nat, 0nat,
    {
        match item {
            ast::Item::TypeDef(type_def) => match h {
                Hoisted::Ty(id) => self.define_type(type_def, id),
                Hoisted::Fn(_) => {
                    assert(false);
                },
            },
            ast::Item::Alias(alias) => match h {
                Hoisted::Ty(id) => self.define_alias(alias, id),
                Hoisted::Fn(_) => {
                    assert(false);
                },
            },
            ast::Item::Function(func) => match h {
                Hoisted::Fn(id) => self.define_function(func, id),
                Hoisted::Ty(_) => {
                    assert(false);
                },
            },
        }
    }

    /// Defines a declared function by its signature, then resolves its body.
    fn define_function(&mut self, func: &ast::RFunction, id: FnId)
        requires
            old(self).state().wf(),
            slot_open(old(self).state().defs, Hoisted::Fn(id)),
        ensures
            nr_define_function(old(self).state(), *func, id) == Some(final(self).state()),
            final(self).state().wf(),
            defs_kept(old(self).state().defs, final(self).state().defs, -1, id.0 as int),
            defined_from(old(self).state().defs, final(self).state().defs),
            slot_defined(final(self).state().defs, Hoisted::Fn(id)),
        decreases *func, 1nat, 0nat,
    {
        let ghost s0 = self.state();
        let f = &*func.value;
        let ghost atys = arg_types(f.args@);
        let ghost mut ts: Seq<TyView> = Seq::empty();
        let mut args: Vec<(Symbol, Ty)> = Vec::new();
        let mut i: usize = 0;
        assert(atys.take(0) =~= Seq::<ast::RType>::empty());
        while i < f.args.len()
            invariant
                i <= f.args@.len(),
                atys == arg_types(f.args@),
                (self.state(), ts) == nr_resolve_types(s0, atys.take(i as int)),
                self.state().scopes == s0.scopes,
                self.state().defs == s0.defs,
                self.state().wf(),
                ts.len() == i,
                args@.len() == i,
                forall|q: int| 0 <= q < i ==> (#[trigger] args@[q]).0 == f.args@[q].0.value && args@[q].1@ == ts[q],
            decreases f.args@.len() - i,
        {
            proof {
                assert(atys.take(i + 1).drop_last() =~= atys.take(i as int));
                assert(atys.take(i + 1).last() == atys[i as int]);
            }
            let ty = self.resolve_type(&f.args[i].1);
            args.push((f.args[i].0.value, ty));
            proof {
                ts = ts.push(args@[i as int].1@);
            }
            i = i + 1;
        }
        assert(atys.take(atys.len() as int) =~= atys);
        let ret = self.resolve_type(&f.ret);
        proof {
            assert(fields_view(args@) =~= Seq::new(f.args@.len(), |q: int| (f.args@[q].0.value, ts[q])));
        }
        let def = FnDef { args: into_boxed_slice(args), ret };
        let ghost s2 = self.state();
        self.defs.define_fn(id, def);
        let ghost s3 = self.state();
        proof {
            lemma_wf_grow(s2, s3);
        }
        fx_insert(&mut self.resolutions.fns, func.id.untyped(), id);
        proof {
            let r = self.state().res;
            assert forall|k: NodeId| #[trigger] r.fns.contains_key(k) implies r.fns[k].0 < s3.defs.fns.len() by {
                if k != func.id.node() {
                    assert(s3.res.fns.contains_key(k));
                }
            }
            assert(r.tys == s3.res.tys && r.vars == s3.res.vars);
        }
        self.resolve_function(func);
    }

    /// Resolves a function body in a function scope of its own, in which its
    /// arguments are variables; the types of the arguments are resolved again.
    fn resolve_function(&mut self, func: &ast::RFunction)
        requires
            old(self).state().wf(),
        ensures
            nr_resolve_function(old(self).state(), *func) == Some(final(self).state()),
            final(self).state().wf(),
            defs_kept(old(self).state().defs, final(self).state().defs, -1, -1),
            defined_from(old(self).state().defs, final(self).state().defs),
        decreases *func, 0nat, 0nat,
    {
        let ghost s0 = self.state();
        let f = &*func.value;
        self.scopes.enter(ScopeKind::Function);
        let ghost s1 = self.state();
        proof {
            lemma_wf_enter_exit(s0, ScopeKind::Function);
        }
        let mut i: usize = 0;
        assert(f.args@.take(0) =~= Seq::<(Ident, ast::RType)>::empty());
        while i < f.args.len()
            invariant
                i <= f.args@.len(),
                self.state() == nr_bind_args(s1, f.args@.take(i as int)),
                self.state().wf(),
                defs_kept(s0.defs, self.state().defs, -1, -1),
                defined_from(s0.defs, self.state().defs),
            decreases f.args@.len() - i,
        {
            proof {
                assert(f.args@.take(i + 1).drop_last() =~= f.args@.take(i as int));
                assert(f.args@.take(i + 1).last() == f.args@[i as int]);
            }
            let name = &f.args[i].0;
            let _ty = self.resolve_type(&f.args[i].1);
            let ghost s2 = self.state();
            proof {
                lemma_current_ok(s2);
            }
            let id = self.defs.insert_var(name.span(), VarDef::Arg);
            let ghost s3 = self.state();
            proof {
                lemma_wf_grow(s2, s3);
                lemma_table_bind(s2.scopes.current(), s3.defs, name.value, TyView::Unknown, FnId(0), id);
                assert(defined_from(s2.defs, s3.defs));
                lemma_defined_trans(s0.defs, s2.defs, s3.defs);
            }
            self.scopes.current_scope().define_var(name.value, id);
            proof {
                lemma_wf_with_current(s3, s2.scopes.current().bind_var(name.value, id));
            }
            i = i + 1;
        }
        assert(f.args@.take(f.args@.len() as int) =~= f.args@);
        let ghost s3 = self.state();
        self.resolve_block(&*f.body.value);
        let ghost s4 = self.state();
        proof {
            lemma_defined_trans(s0.defs, s3.defs, s4.defs);
        }
        self.scopes.exit();
        proof {
            lemma_wf_enter_exit(s4, ScopeKind::Block);
        }
    }

    /// Resolves a block in the current scope: its items, its statements in
    /// order, then its tail expression.
    fn resolve_block(&mut self, block: &ast::Block)
        requires
            old(self).state().wf(),
        ensures
            nr_resolve_block(old(self).state(), *block) == Some(final(self).state()),
            final(self).state().wf(),
            defs_kept(old(self).state().defs, final(self).state().defs, -1, -1),
            defined_from(old(self).state().defs, final(self).state().defs),
        decreases *block, 1nat, 0nat,
    {
        let ghost s0 = self.state();
        self.resolve_items(&block.items);
        let ghost s1 = self.state();
        let mut i: usize = 0;
        assert(block.stmts@.take(0) =~= Seq::<ast::RStmt>::empty());
        while i < block.stmts.len()
            invariant
                i <= block.stmts@.len(),
                nr_resolve_stmts(s1, block.stmts@.take(i as int)) == Some(self.state()),
                self.state().wf(),
                defs_kept(s0.defs, self.state().defs, -1, -1),
                defined_from(s0.defs, self.state().defs),
            decreases block.stmts@.len() - i,
        {
            proof {
                assert(block.stmts@.take(i + 1).drop_last() =~= block.stmts@.take(i as int));
                assert(block.stmts@.take(i + 1).last() == block.stmts@[i as int]);
                assert(decreases_to!(block.stmts@ => block.stmts@[i as int]));
            }
            let ghost before = self.state();
            self.resolve_stmt(&*block.stmts[i].value);
            proof {
                lemma_defined_trans(s0.defs, before.defs, self.state().defs);
            }
            i = i + 1;
        }
        assert(block.stmts@.take(block.stmts@.len() as int) =~= block.stmts@);
        let ghost s2 = self.state();
        if let Some(node) = &block.tail {
            self.resolve_expr(node);
            proof {
                lemma_defined_trans(s0.defs, s2.defs, self.state().defs);
            }
        }
    }

    /// Resolves a block in a new block scope.
    fn resolve_scoped_block(&mut self, block: &ast::Block)
        requires
            old(self).state().wf(),
        ensures
            nr_resolve_scoped_block(old(self).state(), *block) == Some(final(self).state()),
            final(self).state().wf(),
            defs_kept(old(self).state().defs, final(self).state().defs, -1, -1),
            defined_from(old(self).state().defs, final(self).state().defs),
        decreases *block, 2nat, 0nat,
    {
        let ghost s0 = self.state();
        self.scopes.enter(ScopeKind::Block);
        proof {
            lemma_wf_enter_exit(s0, ScopeKind::Block);
        }
        self.resolve_block(block);
        let ghost s1 = self.state();
        self.scopes.exit();
        proof {
            lemma_wf_enter_exit(s1, ScopeKind::Block);
        }
    }

    fn resolve_stmt(&mut self, stmt: &ast::Stmt)
        requires
            old(self).state().wf(),
        ensures
            nr_resolve_stmt(old(self).state(), *stmt) == Some(final(self).state()),
            final(self).state().wf(),
            defs_kept(old(self).state().defs, final(self).state().defs, -1, -1),
            defined_from(old(self).state().defs, final(self).state().defs),
        decreases *stmt, 0nat, 0nat,
    {
        match stmt {
            ast::Stmt::Expr(expr) => self.resolve_expr(expr),
            ast::Stmt::Let { name, ty, value } => {
                // first resolve the type
                if let Some(ty) = ty {
                    let _resolved_ty = self.resolve_type(ty);
                }
                // then resolve the expression
                self.resolve_expr(value);
                // then bind the variable
                let ghost s2 = self.state();
                proof {
                    lemma_current_ok(s2);
                }
                let id = self.defs.insert_var(name.span(), VarDef::Local);
                let ghost s3 = self.state();
                proof {
                    lemma_wf_grow(s2, s3);
                    lemma_table_bind(s2.scopes.current(), s3.defs, name.value, TyView::Unknown, FnId(0), id);
                }
                self.scopes.current_scope().define_var(name.value, id);
                proof {
                    lemma_wf_with_current(s3, s2.scopes.current().bind_var(name.value, id));
                }
                let ghost s4 = self.state();
                fx_insert(&mut self.resolutions.vars, name.id.untyped(), Either::Left(id));
                proof {
                    let r = self.state().res;
                    assert forall|k: NodeId| #[trigger] r.vars.contains_key(k) implies match r.vars[k] {
                        Either::Left(v) => v.0 < s4.defs.vars.len(),
                        Either::Right(f) => f.0 < s4.defs.fns.len(),
                    } by {
                        if k != name.id.node() {
                            assert(s4.res.vars.contains_key(k));
                        }
                    }
                    assert(r.tys == s4.res.tys && r.fns == s4.res.fns);
                }
            },
            ast::Stmt::Assign { place, value } => {
                self.resolve_expr(value);
                self.resolve_expr(place);
            },
            ast::Stmt::Return { value } => {
                if let Some(value) = value {
                    self.resolve_expr(value);
                }
            },
            ast::Stmt::Loop { body } => {
                self.resolve_scoped_block(&*body.value);
            },
            ast::Stmt::Break { value } => {
                if let Some(value) = value {
                    self.resolve_expr(value);
                }
            },
            ast::Stmt::Continue => {},
            ast::Stmt::If { cond, then_block, else_block } => {
                self.resolve_expr(cond);
                self.resolve_scoped_block(&*then_block.value);
                // the else scope is entered and left even without a block
                match else_block {
                    Some(else_block) => self.resolve_scoped_block(&*else_block.value),
                    None => {
                        let ghost s0 = self.state();
                        self.scopes.enter(ScopeKind::Block);
                        let ghost s1 = self.state();
                        self.scopes.exit();
                        proof {
                            lemma_wf_enter_exit(s0, ScopeKind::Block);
                            lemma_wf_enter_exit(s1, ScopeKind::Block);
                        }
                    },
                }
            },
        }
    }

    fn resolve_expr(&mut self, expr: &ast::RExpr)
        requires
            old(self).state().wf(),
        ensures
            nr_resolve_expr(old(self).state(), *expr) == Some(final(self).state()),
            final(self).state().wf(),
            defs_kept(old(self).state().defs, final(self).state().defs, -1, -1),
            defined_from(old(self).state().defs, final(self).state().defs),
        decreases *expr, 0nat, 0nat,
    {
        match &*expr.value {
            ast::Expr::Variable(name) => {
                let ghost s0 = self.state();
                proof {
                    law_lookup_var_declared(s0.scopes.root, s0.scopes.scopes, s0.defs, name.value);
                    law_lookup_fn_declared(s0.scopes.root, s0.scopes.scopes, s0.defs, name.value);
                }
                let found = if let Some(id) = self.scopes.lookup_var(&name.value) {
                    Some(Either::Left(id))
                } else if let Some(id) = self.scopes.lookup_fn(&name.value) {
                    Some(Either::Right(id))
                } else {
                    None
                };
                match found {
                    Some(target) => {
                        fx_insert(&mut self.resolutions.vars, name.id.untyped(), target);
                        proof {
                            let r = self.state().res;
                            assert forall|k: NodeId| #[trigger] r.vars.contains_key(k) implies match r.vars[k] {
                                Either::Left(v) => v.0 < s0.defs.vars.len(),
                                Either::Right(f) => f.0 < s0.defs.fns.len(),
                            } by {
                                if k != name.id.node() {
                                    assert(s0.res.vars.contains_key(k));
                                }
                            }
                            assert(r.tys == s0.res.tys && r.fns == s0.res.fns);
                        }
                    },
                    None => self.emit_unresolved_name(name),
                }
            },
            ast::Expr::Grouping(node) => self.resolve_expr(node),
            ast::Expr::Binary { lhs, rhs, .. } => {
                self.resolve_expr(lhs);
                self.resolve_expr(rhs);
            },
            ast::Expr::Unary { rhs, .. } => {
                self.resolve_expr(rhs);
            },
            ast::Expr::Field { lhs, .. } => {
                self.resolve_expr(lhs);
            },
            ast::Expr::Call { lhs, args } => {
                self.resolve_expr(lhs);
                self.resolve_exprs(args);
            },
            ast::Expr::MethodCall { lhs, args, .. } => {
                self.resolve_expr(lhs);
                self.resolve_exprs(args);
            },
            ast::Expr::Index { lhs, index } => {
                self.resolve_expr(lhs);
                self.resolve_expr(index);
            },
            ast::Expr::Ref(node) => {
                self.resolve_expr(node);
            },
            ast::Expr::Deref(node) => {
                self.resolve_expr(node);
            },
            ast::Expr::Block(node) => {
                self.resolve_scoped_block(&*node.value);
            },
            ast::Expr::Literal(..) => {},
        }
    }

    /// Resolves expressions in order.
    fn resolve_exprs(&mut self, exprs: &Vec<ast::RExpr>)
        requires
            old(self).state().wf(),
        ensures
            nr_resolve_exprs(old(self).state(), exprs@) == Some(final(self).state()),
            final(self).state().wf(),
            defs_kept(old(self).state().defs, final(self).state().defs, -1, -1),
            defined_from(old(self).state().defs, final(self).state().defs),
        decreases exprs@, 1nat, 0nat,
    {
        let ghost s0 = self.state();
        let mut i: usize = 0;
        assert(exprs@.take(0) =~= Seq::<ast::RExpr>::empty());
        while i < exprs.len()
            invariant
                i <= exprs@.len(),
                nr_resolve_exprs(s0, exprs@.take(i as int)) == Some(self.state()),
                self.state().wf(),
                defs_kept(s0.defs, self.state().defs, -1, -1),
                defined_from(s0.defs, self.state().defs),
            decreases exprs@.len() - i,
        {
            proof {
                assert(exprs@.take(i + 1).drop_last() =~= exprs@.take(i as int));
                assert(exprs@.take(i + 1).last() == exprs@[i as int]);
                assert(decreases_to!(exprs@ => exprs@[i as int]));
            }
            let ghost before = self.state();
            self.resolve_expr(&exprs[i]);
            proof {
                lemma_defined_trans(s0.defs, before.defs, self.state().defs);
            }
            i = i + 1;
        }
        assert(exprs@.take(exprs@.len() as int) =~= exprs@);
    }
}

} // verus!
