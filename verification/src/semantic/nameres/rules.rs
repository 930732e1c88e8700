//! What resolving a piece of the syntax tree does to the environment: the
//! scopes, the definitions, the resolutions and the errors.
use vstd::prelude::*;

use crate::semantic::ast::{self, dup_pairs, uniq_positions, Ident, Symbol};
use crate::semantic::node::{NodeId, Span};
use crate::semantic::parser::tree::Either;

use super::defs::{DefsView, FnDefView, FnId, TyDefView, TyId, VarDef, VarId};
use super::error::ResolutionError;
use super::resolutions::ResolutionsView;
use super::scope::{lookup_fn_in, lookup_type_in, lookup_var_in, ScopeKind, ScopeView, ScopesView, TableView};
use super::ty::TyView;

verus! {

/// The id that declaring an item gave it.
#[derive(Debug, Clone, Copy, PartialEq, Eq, Structural)]
pub enum Hoisted {
    Ty(TyId),
    Fn(FnId),
}

/// The whole state of name resolution.
pub struct NrState {
    pub scopes: ScopesView,
    pub defs: DefsView,
    pub res: ResolutionsView,
    pub diags: Seq<ResolutionError>,
}

impl TableView {
    /// Binding a type name unless it is already bound: the new table and the
    /// type it was already bound to, if any.
    pub open spec fn bind_ty(self, name: Symbol, t: TyView) -> (TableView, Option<TyView>) {
        if self.tys.contains_key(name) {
            (self, Some(self.tys[name]))
        } else {
            (TableView { tys: self.tys.insert(name, t), ..self }, None)
        }
    }

    /// Binding a function name unless it is already bound.
    pub open spec fn bind_fn(self, name: Symbol, f: FnId) -> (TableView, Option<FnId>) {
        if self.fns.contains_key(name) {
            (self, Some(self.fns[name]))
        } else {
            (TableView { fns: self.fns.insert(name, f), ..self }, None)
        }
    }

    /// Binding a variable name, shadowing any earlier binding.
    pub open spec fn bind_var(self, name: Symbol, v: VarId) -> TableView {
        TableView { vars: self.vars.insert(name, v), ..self }
    }
}

impl NrState {
    /// No scope open, no definition, no resolution and no error.
    pub open spec fn initial() -> NrState {
        NrState {
            scopes: ScopesView { root: TableView::empty(), scopes: Seq::empty() },
            defs: DefsView::empty(),
            res: ResolutionsView::empty(),
            diags: Seq::empty(),
        }
    }

    pub open spec fn emit(self, e: ResolutionError) -> NrState {
        NrState { diags: self.diags.push(e), ..self }
    }

    pub open spec fn enter(self, kind: ScopeKind) -> NrState {
        NrState { scopes: self.scopes.enter(kind), ..self }
    }

    pub open spec fn exit(self) -> NrState {
        NrState { scopes: self.scopes.exit(), ..self }
    }

    /// A new variable defined as `def`, bound by name in the innermost scope.
    pub open spec fn new_var(self, name: Ident, def: VarDef) -> (NrState, VarId) {
        let id = VarId(self.defs.vars.len() as usize);
        (
            NrState {
                defs: DefsView { vars: self.defs.vars.push((name.span, Some(def))), ..self.defs },
                scopes: self.scopes.with_current(self.scopes.current().bind_var(name.value, id)),
                ..self
            },
            id,
        )
    }

    /// Filling the slot of a declared type; `None` where the id is out of
    /// range or already defined.
    pub open spec fn define_ty(self, id: TyId, def: TyDefView) -> Option<NrState> {
        if id.0 < self.defs.tys.len() && self.defs.tys[id.0 as int].1 is None {
            Some(
                NrState {
                    defs: DefsView {
                        tys: self.defs.tys.update(
                            id.0 as int,
                            (self.defs.tys[id.0 as int].0, Some(def)),
                        ),
                        ..self.defs
                    },
                    ..self
                },
            )
        } else {
            None
        }
    }

    /// Filling the slot of a declared function; `None` where the id is out of
    /// range or already defined.
    pub open spec fn define_fn(self, id: FnId, def: FnDefView) -> Option<NrState> {
        if id.0 < self.defs.fns.len() && self.defs.fns[id.0 as int].1 is None {
            Some(
                NrState {
                    defs: DefsView {
                        fns: self.defs.fns.update(
                            id.0 as int,
                            (self.defs.fns[id.0 as int].0, Some(def)),
                        ),
                        ..self.defs
                    },
                    ..self
                },
            )
        } else {
            None
        }
    }
}

// ---- types -----------------------------------------------------------------
/// Resolving a type node: names are looked up through the scopes, an unknown
/// name is reported and becomes `Unknown`; every node gets its resolution.
pub open spec fn nr_resolve_type(st: NrState, ty: ast::RType) -> (NrState, TyView)
    decreases ty, 0nat,
{
    let (s1, t) = match *ty.value {
        ast::Type::Named(node) => match st.scopes.lookup_type(node.value) {
            Some(t) => (st, t),
            None => (
                st.emit(ResolutionError::UnknownType { span: node.span, name: node.value }),
                TyView::Unknown,
            ),
        },
        ast::Type::Pointer(n) => {
            let (s, t) = nr_resolve_type(st, n);
            (s, TyView::Pointer(Box::new(t)))
        },
        ast::Type::Array(n) => {
            let (s, t) = nr_resolve_type(st, n);
            (s, TyView::Array(Box::new(t)))
        },
        ast::Type::Fn(n, nodes) => {
            let (s, r) = nr_resolve_type(st, n);
            let (s2, ps) = nr_resolve_types(s, nodes@);
            (s2, TyView::Fn(Box::new(r), ps))
        },
    };
    (NrState { res: ResolutionsView { tys: s1.res.tys.insert(ty.id.node(), t), ..s1.res }, ..s1 }, t)
}

/// Resolving type nodes in order.
pub open spec fn nr_resolve_types(st: NrState, tys: Seq<ast::RType>) -> (NrState, Seq<TyView>)
    decreases tys, 1nat,
{
    if tys.len() == 0 {
        (st, Seq::empty())
    } else {
        let (s1, ts) = nr_resolve_types(st, tys.drop_last());
        let (s2, t) = nr_resolve_type(s1, tys.last());
        (s2, ts.push(t))
    }
}

// ---- declaring items ---------------------------------------------------------
/// Where the type a name was already bound to was declared, if it is a
/// declared type; `None` where that id is out of range.
pub open spec fn type_span(defs: DefsView, t: TyView) -> Option<Option<Span>> {
    match t {
        TyView::Custom(id) => if id.0 < defs.tys.len() {
            Some(Some(defs.tys[id.0 as int].0))
        } else {
            None
        },
        _ => Some(None),
    }
}

/// Declaring a type (a type definition or an alias) named `name`: a new id,
/// bound in the innermost scope unless the name is bound there already.
pub open spec fn nr_declare_type(st: NrState, name: Ident) -> Option<(NrState, Hoisted)> {
    let id = TyId(st.defs.tys.len() as usize);
    let defs = DefsView { tys: st.defs.tys.push((name.span, None)), ..st.defs };
    let (table, existing) = st.scopes.current().bind_ty(name.value, TyView::Custom(id));
    let s1 = NrState { defs, scopes: st.scopes.with_current(table), ..st };
    match existing {
        None => Some((s1, Hoisted::Ty(id))),
        Some(e) => match type_span(defs, e) {
            None => None,
            Some(original) => Some(
                (
                    s1.emit(
                        ResolutionError::DuplicateTypeDefinition {
                            symbol: name.value,
                            original,
                            duplicate: name.span,
                        },
                    ),
                    Hoisted::Ty(id),
                ),
            ),
        },
    }
}

/// Declaring a function named `name`.
pub open spec fn nr_declare_fn(st: NrState, name: Ident) -> Option<(NrState, Hoisted)> {
    let id = FnId(st.defs.fns.len() as usize);
    let defs = DefsView { fns: st.defs.fns.push((name.span, None)), ..st.defs };
    let (table, existing) = st.scopes.current().bind_fn(name.value, id);
    let s1 = NrState { defs, scopes: st.scopes.with_current(table), ..st };
    match existing {
        None => Some((s1, Hoisted::Fn(id))),
        Some(e) => if e.0 < defs.fns.len() {
            Some(
                (
                    s1.emit(
                        ResolutionError::DuplicateFunctionDefinition {
                            symbol: name.value,
                            original: defs.fns[e.0 as int].0,
                            duplicate: name.span,
                        },
                    ),
                    Hoisted::Fn(id),
                ),
            )
        } else {
            None
        },
    }
}

pub open spec fn nr_declare_item(st: NrState, item: ast::Item) -> Option<(NrState, Hoisted)> {
    match item {
        ast::Item::TypeDef(td) => nr_declare_type(st, td.spec_name()),
        ast::Item::Alias(a) => nr_declare_type(st, a.value.name),
        ast::Item::Function(f) => nr_declare_fn(st, f.value.name),
    }
}

/// Declaring items in order.
pub open spec fn nr_declare_items(st: NrState, items: Seq<ast::Item>) -> Option<(NrState, Seq<Hoisted>)>
    decreases items.len(),
{
    if items.len() == 0 {
        Some((st, Seq::empty()))
    } else {
        match nr_declare_items(st, items.drop_last()) {
            None => None,
            Some((s1, hs)) => match nr_declare_item(s1, items.last()) {
                None => None,
                Some((s2, h)) => Some((s2, hs.push(h))),
            },
        }
    }
}

// ---- defining items ----------------------------------------------------------
pub open spec fn variant_names(variants: Seq<Ident>) -> Seq<Symbol> {
    variants.map_values(|v: Ident| v.value)
}

pub open spec fn variant_dup_errors(variants: Seq<Ident>) -> Seq<ResolutionError> {
    dup_pairs(variant_names(variants)).map_values(
        |d: (int, int)|
            ResolutionError::DuplicateVariantDefinition {
                symbol: variants[d.1].value,
                original: variants[d.0].span,
                duplicate: variants[d.1].span,
            },
    )
}

pub open spec fn field_dup_errors(fields: Seq<(Ident, ast::RType)>) -> Seq<ResolutionError> {
    dup_pairs(ast::named_keys(fields)).map_values(
        |d: (int, int)|
            ResolutionError::DuplicateFieldDefinition {
                symbol: fields[d.1].0.value,
                original: fields[d.0].0.span,
                duplicate: fields[d.1].0.span,
            },
    )
}

/// An enum defines the distinct names of its variants; a repeated variant is
/// reported.
pub open spec fn nr_define_enum(st: NrState, e: ast::EnumDef, id: TyId) -> Option<NrState> {
    let keys = variant_names(e.variants@);
    let s1 = NrState { diags: st.diags + variant_dup_errors(e.variants@), ..st };
    s1.define_ty(
        id,
        TyDefView::Enum { variants: uniq_positions(keys).map_values(|p: int| keys[p]) },
    )
}

/// The distinct fields of a struct, each at its first occurrence.
pub open spec fn unique_fields_of(fields: Seq<(Ident, ast::RType)>) -> Seq<(Ident, ast::RType)> {
    uniq_positions(ast::named_keys(fields)).map_values(|p: int| fields[p])
}

/// A struct defines its distinct fields with their resolved types; a repeated
/// field is reported and its type is not resolved.
pub open spec fn nr_define_data(st: NrState, d: ast::DataDef, id: TyId) -> Option<NrState> {
    let s1 = NrState { diags: st.diags + field_dup_errors(d.fields@), ..st };
    let kept = unique_fields_of(d.fields@);
    let (s2, tys) = nr_resolve_types(s1, kept.map_values(|f: (Ident, ast::RType)| f.1));
    s2.define_ty(
        id,
        TyDefView::Struct { fields: Seq::new(kept.len(), |i: int| (kept[i].0.value, tys[i])) },
    )
}

pub open spec fn nr_define_alias(st: NrState, a: ast::Alias, id: TyId) -> Option<NrState> {
    let (s1, t) = nr_resolve_type(st, a.ty);
    s1.define_ty(id, TyDefView::Alias(t))
}

/// Binding the arguments of a function as variables of its scope, in order;
/// their types are resolved again.
pub open spec fn nr_bind_args(st: NrState, args: Seq<(Ident, ast::RType)>) -> NrState
    decreases args.len(),
{
    if args.len() == 0 {
        st
    } else {
        let s1 = nr_bind_args(st, args.drop_last());
        let (name, ty) = args.last();
        let (s2, _) = nr_resolve_type(s1, ty);
        s2.new_var(name, VarDef::Arg).0
    }
}

pub open spec fn arg_types(args: Seq<(Ident, ast::RType)>) -> Seq<ast::RType> {
    args.map_values(|a: (Ident, ast::RType)| a.1)
}

/// Defining a function: its signature is resolved and recorded, then its
/// body is resolved in a scope of its own.
pub open spec fn nr_define_function(st: NrState, f: ast::RFunction, id: FnId) -> Option<NrState>
    decreases f, 1nat, 0nat,
{
    let func = *f.value;
    let (s1, arg_tys) = nr_resolve_types(st, arg_types(func.args@));
    let (s2, ret) = nr_resolve_type(s1, func.ret);
    let def = FnDefView {
        args: Seq::new(func.args@.len(), |i: int| (func.args@[i].0.value, arg_tys[i])),
        ret,
    };
    match s2.define_fn(id, def) {
        None => None,
        Some(s3) => {
            let s4 = NrState {
                res: ResolutionsView { fns: s3.res.fns.insert(f.id.node(), id), ..s3.res },
                ..s3
            };
            nr_resolve_function(s4, f)
        },
    }
}

/// Resolving a function body in a new function scope holding its arguments.
pub open spec fn nr_resolve_function(st: NrState, f: ast::RFunction) -> Option<NrState>
    decreases f, 0nat, 0nat,
{
    let s1 = nr_bind_args(st.enter(ScopeKind::Function), (*f.value).args@);
    match nr_resolve_block(s1, *(*f.value).body.value) {
        None => None,
        Some(s2) => Some(s2.exit()),
    }
}

pub open spec fn nr_define_item(st: NrState, item: ast::Item, h: Hoisted) -> Option<NrState>
    decreases item, 1nat, 0nat,
{
    match (item, h) {
        (ast::Item::TypeDef(ast::TypeDef::Enum(e)), Hoisted::Ty(id)) => nr_define_enum(st, *e.value, id),
        (ast::Item::TypeDef(ast::TypeDef::Data(d)), Hoisted::Ty(id)) => nr_define_data(st, *d.value, id),
        (ast::Item::Alias(a), Hoisted::Ty(id)) => nr_define_alias(st, *a.value, id),
        (ast::Item::Function(f), Hoisted::Fn(id)) => nr_define_function(st, f, id),
        _ => None,
    }
}

/// Defining the first `k` declared items in order.
pub open spec fn nr_define_items(st: NrState, items: Seq<ast::Item>, hs: Seq<Hoisted>, k: nat) -> Option<NrState>
    decreases items, 1nat, k,
{
    if k == 0 || k > items.len() {
        Some(st)
    } else {
        match nr_define_items(st, items, hs, (k - 1) as nat) {
            None => None,
            Some(s1) => nr_define_item(s1, items[k - 1], hs[k - 1]),
        }
    }
}

/// Resolving the items of a scope: all are declared first, then each is
/// defined.
pub open spec fn nr_resolve_items(st: NrState, items: Seq<ast::Item>) -> Option<NrState>
    decreases items, 2nat, 0nat,
{
    match nr_declare_items(st, items) {
        None => None,
        Some((s1, hs)) => nr_define_items(s1, items, hs, items.len()),
    }
}

// ---- bodies ------------------------------------------------------------------
pub open spec fn nr_resolve_block(st: NrState, b: ast::Block) -> Option<NrState>
    decreases b, 1nat, 0nat,
{
    match nr_resolve_items(st, b.items@) {
        None => None,
        Some(s1) => match nr_resolve_stmts(s1, b.stmts@) {
            None => None,
            Some(s2) => match b.tail {
                Some(t) => nr_resolve_expr(s2, t),
                None => Some(s2),
            },
        },
    }
}

/// Resolving a block in a new block scope.
pub open spec fn nr_resolve_scoped_block(st: NrState, b: ast::Block) -> Option<NrState>
    decreases b, 2nat, 0nat,
{
    match nr_resolve_block(st.enter(ScopeKind::Block), b) {
        None => None,
        Some(s) => Some(s.exit()),
    }
}

pub open spec fn nr_resolve_stmts(st: NrState, ss: Seq<ast::RStmt>) -> Option<NrState>
    decreases ss, 1nat, 0nat,
{
    if ss.len() == 0 {
        Some(st)
    } else {
        match nr_resolve_stmts(st, ss.drop_last()) {
            None => None,
            Some(s1) => nr_resolve_stmt(s1, *ss.last().value),
        }
    }
}

pub open spec fn nr_resolve_opt_expr(st: NrState, e: Option<ast::RExpr>) -> Option<NrState>
    decreases e, 1nat, 0nat,
{
    match e {
        Some(v) => nr_resolve_expr(st, v),
        None => Some(st),
    }
}

pub open spec fn nr_resolve_stmt(st: NrState, s: ast::Stmt) -> Option<NrState>
    decreases s, 0nat, 0nat,
{
    match s {
        ast::Stmt::Expr(e) => nr_resolve_expr(st, e),
        ast::Stmt::Let { name, ty, value } => {
            let s1 = match ty {
                Some(t) => nr_resolve_type(st, t).0,
                None => st,
            };
            match nr_resolve_expr(s1, value) {
                None => None,
                Some(s2) => {
                    let (s3, id) = s2.new_var(name, VarDef::Local);
                    Some(
                        NrState {
                            res: ResolutionsView {
                                vars: s3.res.vars.insert(name.id.node(), Either::Left(id)),
                                ..s3.res
                            },
                            ..s3
                        },
                    )
                },
            }
        },
        ast::Stmt::Assign { place, value } => match nr_resolve_expr(st, value) {
            None => None,
            Some(s1) => nr_resolve_expr(s1, place),
        },
        ast::Stmt::Return { value } => nr_resolve_opt_expr(st, value),
        ast::Stmt::Loop { body } => nr_resolve_scoped_block(st, *body.value),
        ast::Stmt::Break { value } => nr_resolve_opt_expr(st, value),
        ast::Stmt::Continue => Some(st),
        ast::Stmt::If { cond, then_block, else_block } => match nr_resolve_expr(st, cond) {
            None => None,
            Some(s1) => match nr_resolve_scoped_block(s1, *then_block.value) {
                None => None,
                Some(s2) => match else_block {
                    Some(b) => nr_resolve_scoped_block(s2, *b.value),
                    // the else scope is entered and left even without a block
                    None => Some(s2.enter(ScopeKind::Block).exit()),
                },
            },
        },
    }
}

pub open spec fn nr_resolve_expr(st: NrState, e: ast::RExpr) -> Option<NrState>
    decreases e, 0nat, 0nat,
{
    match *e.value {
        ast::Expr::Variable(name) => match st.scopes.lookup_var(name.value) {
            Some(id) => Some(
                NrState {
                    res: ResolutionsView {
                        vars: st.res.vars.insert(name.id.node(), Either::Left(id)),
                        ..st.res
                    },
                    ..st
                },
            ),
            None => match st.scopes.lookup_fn(name.value) {
                Some(f) => Some(
                    NrState {
                        res: ResolutionsView {
                            vars: st.res.vars.insert(name.id.node(), Either::Right(f)),
                            ..st.res
                        },
                        ..st
                    },
                ),
                None => Some(st.emit(ResolutionError::UnknownName { span: name.span, name: name.value })),
            },
        },
        ast::Expr::Grouping(n) => nr_resolve_expr(st, n),
        ast::Expr::Binary { lhs, rhs, .. } => match nr_resolve_expr(st, lhs) {
            None => None,
            Some(s1) => nr_resolve_expr(s1, rhs),
        },
        ast::Expr::Unary { rhs, .. } => nr_resolve_expr(st, rhs),
        ast::Expr::Field { lhs, .. } => nr_resolve_expr(st, lhs),
        ast::Expr::Call { lhs, args } => match nr_resolve_expr(st, lhs) {
            None => None,
            Some(s1) => nr_resolve_exprs(s1, args@),
        },
        ast::Expr::MethodCall { lhs, args, .. } => match nr_resolve_expr(st, lhs) {
            None => None,
            Some(s1) => nr_resolve_exprs(s1, args@),
        },
        ast::Expr::Index { lhs, index } => match nr_resolve_expr(st, lhs) {
            None => None,
            Some(s1) => nr_resolve_expr(s1, index),
        },
        ast::Expr::Ref(n) => nr_resolve_expr(st, n),
        ast::Expr::Deref(n) => nr_resolve_expr(st, n),
        ast::Expr::Block(b) => nr_resolve_scoped_block(st, *b.value),
        ast::Expr::Literal(_) => Some(st),
    }
}

pub open spec fn nr_resolve_exprs(st: NrState, es: Seq<ast::RExpr>) -> Option<NrState>
    decreases es, 1nat, 0nat,
{
    if es.len() == 0 {
        Some(st)
    } else {
        match nr_resolve_exprs(st, es.drop_last()) {
            None => None,
            Some(s1) => nr_resolve_expr(s1, es.last()),
        }
    }
}

// ---- well-formedness ----------------------------------------------------------
/// Every type that `t` names is declared in `d`.
pub open spec fn ty_ok(t: TyView, d: DefsView) -> bool
    decreases t, 0nat,
{
    match t {
        TyView::Custom(id) => id.0 < d.tys.len(),
        TyView::Pointer(b) => ty_ok(*b, d),
        TyView::Array(b) => ty_ok(*b, d),
        TyView::Fn(r, ps) => ty_ok(*r, d) && tys_ok(ps, d),
        _ => true,
    }
}

/// Every type that one of `ts` names is declared in `d`.
pub open spec fn tys_ok(ts: Seq<TyView>, d: DefsView) -> bool
    decreases ts, 1nat,
{
    if ts.len() == 0 {
        true
    } else {
        tys_ok(ts.drop_last(), d) && ty_ok(ts.last(), d)
    }
}

/// Every variable, type and function bound in the table has been declared.
pub open spec fn table_ok(t: TableView, d: DefsView) -> bool {
    &&& forall|n: Symbol| #[trigger] t.vars.contains_key(n) ==> t.vars[n].0 < d.vars.len()
    &&& forall|n: Symbol| #[trigger] t.tys.contains_key(n) ==> ty_ok(t.tys[n], d)
    &&& forall|n: Symbol| #[trigger] t.fns.contains_key(n) ==> t.fns[n].0 < d.fns.len()
}

/// Every resolution names declared variables, types and functions.
pub open spec fn res_ok(r: ResolutionsView, d: DefsView) -> bool {
    &&& forall|k: NodeId| #[trigger] r.tys.contains_key(k) ==> ty_ok(r.tys[k], d)
    &&& forall|k: NodeId| #[trigger] r.fns.contains_key(k) ==> r.fns[k].0 < d.fns.len()
    &&& forall|k: NodeId|
        #[trigger] r.vars.contains_key(k) ==> match r.vars[k] {
            Either::Left(v) => v.0 < d.vars.len(),
            Either::Right(f) => f.0 < d.fns.len(),
        }
}

impl NrState {
    /// Every name bound in a scope, and every resolution, denotes a declared
    /// variable, type or function.
    pub open spec fn wf(self) -> bool {
        &&& table_ok(self.scopes.root, self.defs)
        &&& forall|i: int|
            0 <= i < self.scopes.scopes.len() ==> table_ok(#[trigger] self.scopes.scopes[i].table, self.defs)
        &&& res_ok(self.res, self.defs)
    }
}

/// `b` extends `a`: no slot is dropped, and every slot of `a` is kept but
/// for the type slot `ty_ex` and the function slot `fn_ex`.
pub open spec fn defs_kept(a: DefsView, b: DefsView, ty_ex: int, fn_ex: int) -> bool {
    &&& a.tys.len() <= b.tys.len()
    &&& a.fns.len() <= b.fns.len()
    &&& a.vars.len() <= b.vars.len()
    &&& forall|i: int| 0 <= i < a.tys.len() && i != ty_ex ==> #[trigger] b.tys[i] == a.tys[i]
    &&& forall|i: int| 0 <= i < a.fns.len() && i != fn_ex ==> #[trigger] b.fns[i] == a.fns[i]
    &&& forall|i: int| 0 <= i < a.vars.len() ==> #[trigger] b.vars[i] == a.vars[i]
}

/// Every slot of `d` holds a definition.
pub open spec fn all_defined(d: DefsView) -> bool {
    &&& forall|i: int| 0 <= i < d.tys.len() ==> (#[trigger] d.tys[i]).1 is Some
    &&& forall|i: int| 0 <= i < d.fns.len() ==> (#[trigger] d.fns[i]).1 is Some
    &&& forall|i: int| 0 <= i < d.vars.len() ==> (#[trigger] d.vars[i]).1 is Some
}

/// Every slot that `b` has beyond the slots of `a` holds a definition.
pub open spec fn defined_from(a: DefsView, b: DefsView) -> bool {
    &&& forall|i: int| a.tys.len() <= i < b.tys.len() ==> (#[trigger] b.tys[i]).1 is Some
    &&& forall|i: int| a.fns.len() <= i < b.fns.len() ==> (#[trigger] b.fns[i]).1 is Some
    &&& forall|i: int| a.vars.len() <= i < b.vars.len() ==> (#[trigger] b.vars[i]).1 is Some
}

/// Every slot that `b` has beyond the slots of `a` holds a definition, or
/// is the slot of one of `hs` from position `k` on.
pub open spec fn pending(a: DefsView, b: DefsView, hs: Seq<Hoisted>, k: int) -> bool {
    &&& forall|i: int|
        a.tys.len() <= i < b.tys.len() ==> (#[trigger] b.tys[i]).1 is Some || exists|j: int|
            k <= j < hs.len() && ty_slot(#[trigger] hs[j]) == i
    &&& forall|i: int|
        a.fns.len() <= i < b.fns.len() ==> (#[trigger] b.fns[i]).1 is Some || exists|j: int|
            k <= j < hs.len() && fn_slot(#[trigger] hs[j]) == i
    &&& forall|i: int| a.vars.len() <= i < b.vars.len() ==> (#[trigger] b.vars[i]).1 is Some
}

/// The slot of `h` holds a definition.
pub open spec fn slot_defined(d: DefsView, h: Hoisted) -> bool {
    match h {
        Hoisted::Ty(id) => id.0 < d.tys.len() && d.tys[id.0 as int].1 is Some,
        Hoisted::Fn(id) => id.0 < d.fns.len() && d.fns[id.0 as int].1 is Some,
    }
}

/// The type slot that defining a hoisted item fills, or -1.
pub open spec fn ty_slot(h: Hoisted) -> int {
    match h {
        Hoisted::Ty(id) => id.0 as int,
        Hoisted::Fn(_) => -1,
    }
}

/// The function slot that defining a hoisted item fills, or -1.
pub open spec fn fn_slot(h: Hoisted) -> int {
    match h {
        Hoisted::Ty(_) => -1,
        Hoisted::Fn(id) => id.0 as int,
    }
}

/// The slot of `h` is declared in `d` and not defined yet.
pub open spec fn slot_open(d: DefsView, h: Hoisted) -> bool {
    match h {
        Hoisted::Ty(id) => id.0 < d.tys.len() && d.tys[id.0 as int].1 is None,
        Hoisted::Fn(id) => id.0 < d.fns.len() && d.fns[id.0 as int].1 is None,
    }
}

/// `h` is the id that declaring one more item of its kind in `d` gives.
pub open spec fn newest(d: DefsView, h: Hoisted) -> bool {
    match h {
        Hoisted::Ty(id) => id.0 == d.tys.len(),
        Hoisted::Fn(id) => id.0 == d.fns.len(),
    }
}

/// `h` was not declared in `d`.
pub open spec fn fresh(d: DefsView, h: Hoisted) -> bool {
    match h {
        Hoisted::Ty(id) => d.tys.len() <= id.0,
        Hoisted::Fn(id) => d.fns.len() <= id.0,
    }
}

/// `h` is what declaring `item` gives: a type id for a type definition or an
/// alias, a function id for a function.
pub open spec fn hoisted_matches(item: ast::Item, h: Hoisted) -> bool {
    match item {
        ast::Item::Function(_) => h is Fn,
        _ => h is Ty,
    }
}

/// The types a type names stay declared when more are declared.
pub proof fn lemma_ty_ok_grow(t: TyView, a: DefsView, b: DefsView)
    requires
        ty_ok(t, a),
        a.tys.len() <= b.tys.len(),
    ensures
        ty_ok(t, b),
    decreases t, 0nat,
{
    match t {
        TyView::Pointer(x) => lemma_ty_ok_grow(*x, a, b),
        TyView::Array(x) => lemma_ty_ok_grow(*x, a, b),
        TyView::Fn(r, ps) => {
            lemma_ty_ok_grow(*r, a, b);
            lemma_tys_ok_grow(ps, a, b);
        },
        _ => {},
    }
}

pub proof fn lemma_tys_ok_grow(ts: Seq<TyView>, a: DefsView, b: DefsView)
    requires
        tys_ok(ts, a),
        a.tys.len() <= b.tys.len(),
    ensures
        tys_ok(ts, b),
    decreases ts, 1nat,
{
    if ts.len() > 0 {
        lemma_tys_ok_grow(ts.drop_last(), a, b);
        lemma_ty_ok_grow(ts.last(), a, b);
    }
}

/// Whether one of a sequence of types names only declared types.
pub proof fn lemma_tys_ok(ts: Seq<TyView>, d: DefsView)
    ensures
        tys_ok(ts, d) <==> forall|i: int| 0 <= i < ts.len() ==> ty_ok(#[trigger] ts[i], d),
    decreases ts.len(),
{
    if ts.len() > 0 {
        lemma_tys_ok(ts.drop_last(), d);
        if forall|i: int| 0 <= i < ts.len() ==> ty_ok(#[trigger] ts[i], d) {
            assert forall|i: int| 0 <= i < ts.drop_last().len() implies ty_ok(#[trigger] ts.drop_last()[i], d) by {
                assert(ts.drop_last()[i] == ts[i]);
            }
            assert(ty_ok(ts[ts.len() - 1], d));
        }
        if tys_ok(ts, d) {
            assert forall|i: int| 0 <= i < ts.len() implies ty_ok(#[trigger] ts[i], d) by {
                if i < ts.len() - 1 {
                    assert(ts.drop_last()[i] == ts[i]);
                }
            }
        }
    }
}

pub proof fn lemma_table_ok_grow(t: TableView, a: DefsView, b: DefsView)
    requires
        table_ok(t, a),
        a.tys.len() <= b.tys.len(),
        a.fns.len() <= b.fns.len(),
        a.vars.len() <= b.vars.len(),
    ensures
        table_ok(t, b),
{
    assert forall|n: Symbol| #[trigger] t.tys.contains_key(n) implies ty_ok(t.tys[n], b) by {
        lemma_ty_ok_grow(t.tys[n], a, b);
    }
}

pub proof fn lemma_res_ok_grow(r: ResolutionsView, a: DefsView, b: DefsView)
    requires
        res_ok(r, a),
        a.tys.len() <= b.tys.len(),
        a.fns.len() <= b.fns.len(),
        a.vars.len() <= b.vars.len(),
    ensures
        res_ok(r, b),
{
    assert forall|k: NodeId| #[trigger] r.tys.contains_key(k) implies ty_ok(r.tys[k], b) by {
        lemma_ty_ok_grow(r.tys[k], a, b);
    }
}

/// Well-formedness depends on the scopes, the resolutions and how many ids
/// were declared.
pub proof fn lemma_wf_grow(a: NrState, b: NrState)
    requires
        a.wf(),
        b.scopes == a.scopes,
        b.res == a.res,
        a.defs.tys.len() <= b.defs.tys.len(),
        a.defs.fns.len() <= b.defs.fns.len(),
        a.defs.vars.len() <= b.defs.vars.len(),
    ensures
        b.wf(),
{
    lemma_table_ok_grow(a.scopes.root, a.defs, b.defs);
    assert forall|i: int| 0 <= i < b.scopes.scopes.len() implies table_ok(#[trigger] b.scopes.scopes[i].table, b.defs) by {
        lemma_table_ok_grow(a.scopes.scopes[i].table, a.defs, b.defs);
    }
    lemma_res_ok_grow(a.res, a.defs, b.defs);
}

/// Replacing the innermost table by a well-formed one keeps the scopes
/// well-formed.
pub proof fn lemma_wf_with_current(st: NrState, t: TableView)
    requires
        st.wf(),
        table_ok(t, st.defs),
    ensures
        (NrState { scopes: st.scopes.with_current(t), ..st }).wf(),
{
    let s2 = NrState { scopes: st.scopes.with_current(t), ..st };
    if st.scopes.scopes.len() > 0 {
        assert forall|i: int| 0 <= i < s2.scopes.scopes.len() implies table_ok(#[trigger] s2.scopes.scopes[i].table, s2.defs) by {
            if i != st.scopes.scopes.len() - 1 {
                assert(s2.scopes.scopes[i] == st.scopes.scopes[i]);
            }
        }
    }
}

pub proof fn lemma_wf_enter_exit(st: NrState, kind: ScopeKind)
    requires
        st.wf(),
    ensures
        st.enter(kind).wf(),
        st.exit().wf(),
{
    let e = st.enter(kind);
    assert forall|i: int| 0 <= i < e.scopes.scopes.len() implies table_ok(#[trigger] e.scopes.scopes[i].table, e.defs) by {
        if i < st.scopes.scopes.len() {
            assert(e.scopes.scopes[i] == st.scopes.scopes[i]);
        }
    }
    let x = st.exit();
    assert forall|i: int| 0 <= i < x.scopes.scopes.len() implies table_ok(#[trigger] x.scopes.scopes[i].table, x.defs) by {
        assert(x.scopes.scopes[i] == st.scopes.scopes[i]);
    }
}

/// In well-formed scopes a type name denotes a type that names only
/// declared types.
pub proof fn law_lookup_type_declared(root: TableView, scopes: Seq<ScopeView>, d: DefsView, name: Symbol)
    requires
        table_ok(root, d),
        forall|i: int| 0 <= i < scopes.len() ==> table_ok(#[trigger] scopes[i].table, d),
    ensures
        lookup_type_in(root, scopes, name) matches Some(t) ==> ty_ok(t, d),
    decreases scopes.len(),
{
    if scopes.len() > 0 {
        assert(table_ok(scopes[scopes.len() - 1].table, d));
        law_lookup_type_declared(root, scopes.drop_last(), d, name);
    }
}

/// In well-formed scopes a function name denotes a declared function.
pub proof fn law_lookup_fn_declared(root: TableView, scopes: Seq<ScopeView>, d: DefsView, name: Symbol)
    requires
        table_ok(root, d),
        forall|i: int| 0 <= i < scopes.len() ==> table_ok(#[trigger] scopes[i].table, d),
    ensures
        lookup_fn_in(root, scopes, name) matches Some(f) ==> f.0 < d.fns.len(),
    decreases scopes.len(),
{
    if scopes.len() > 0 {
        assert(table_ok(scopes[scopes.len() - 1].table, d));
        law_lookup_fn_declared(root, scopes.drop_last(), d, name);
    }
}

/// In well-formed scopes a variable name denotes a declared variable.
pub proof fn law_lookup_var_declared(root: TableView, scopes: Seq<ScopeView>, d: DefsView, name: Symbol)
    requires
        table_ok(root, d),
        forall|i: int| 0 <= i < scopes.len() ==> table_ok(#[trigger] scopes[i].table, d),
    ensures
        lookup_var_in(root, scopes, name) matches Some(v) ==> v.0 < d.vars.len(),
    decreases scopes.len(),
{
    if scopes.len() > 0 {
        assert(table_ok(scopes[scopes.len() - 1].table, d));
        law_lookup_var_declared(root, scopes.drop_last(), d, name);
    }
}

/// The innermost table of well-formed scopes is well-formed.
pub proof fn lemma_current_ok(st: NrState)
    requires
        st.wf(),
    ensures
        table_ok(st.scopes.current(), st.defs),
{
    if st.scopes.scopes.len() > 0 {
        assert(table_ok(st.scopes.scopes[st.scopes.scopes.len() - 1].table, st.defs));
    }
}

/// Binding a name keeps a table well-formed when what it is bound to is
/// declared.
pub proof fn lemma_table_bind(t: TableView, d: DefsView, name: Symbol, ty: TyView, f: FnId, v: VarId)
    requires
        table_ok(t, d),
    ensures
        ty_ok(ty, d) ==> table_ok(t.bind_ty(name, ty).0, d),
        f.0 < d.fns.len() ==> table_ok(t.bind_fn(name, f).0, d),
        v.0 < d.vars.len() ==> table_ok(t.bind_var(name, v), d),
{
    if ty_ok(ty, d) {
        let t2 = t.bind_ty(name, ty).0;
        assert forall|n: Symbol| #[trigger] t2.tys.contains_key(n) implies ty_ok(t2.tys[n], d) by {
            if n != name {
                assert(t.tys.contains_key(n));
            }
        }
    }
    if f.0 < d.fns.len() {
        let t2 = t.bind_fn(name, f).0;
        assert forall|n: Symbol| #[trigger] t2.fns.contains_key(n) implies t2.fns[n].0 < d.fns.len() by {
            if n != name {
                assert(t.fns.contains_key(n));
            }
        }
    }
    if v.0 < d.vars.len() {
        let t3 = t.bind_var(name, v);
        assert forall|n: Symbol| #[trigger] t3.vars.contains_key(n) implies t3.vars[n].0 < d.vars.len() by {
            if n != name {
                assert(t.vars.contains_key(n));
            }
        }
        assert forall|n: Symbol| #[trigger] t3.tys.contains_key(n) implies ty_ok(t3.tys[n], d) by {
            assert(t.tys.contains_key(n));
        }
        assert forall|n: Symbol| #[trigger] t3.fns.contains_key(n) implies t3.fns[n].0 < d.fns.len() by {
            assert(t.fns.contains_key(n));
        }
    }
}

/// Slots filled in two steps are filled.
pub proof fn lemma_defined_trans(a: DefsView, b: DefsView, c: DefsView)
    requires
        defined_from(a, b),
        defined_from(b, c),
        defs_kept(b, c, -1, -1),
    ensures
        defined_from(a, c),
{
    assert forall|i: int| a.tys.len() <= i < c.tys.len() implies (#[trigger] c.tys[i]).1 is Some by {
        if i < b.tys.len() {
            assert(c.tys[i] == b.tys[i]);
        }
    }
    assert forall|i: int| a.fns.len() <= i < c.fns.len() implies (#[trigger] c.fns[i]).1 is Some by {
        if i < b.fns.len() {
            assert(c.fns[i] == b.fns[i]);
        }
    }
    assert forall|i: int| a.vars.len() <= i < c.vars.len() implies (#[trigger] c.vars[i]).1 is Some by {
        if i < b.vars.len() {
            assert(c.vars[i] == b.vars[i]);
        }
    }
}

} // verus!
