//! What holds of every use of the scopes, the definitions and resolution.
use vstd::prelude::*;

use crate::semantic::ast::{
    self, law_dup_pairs, law_uniq_positions, lemma_uniq_in_range, named_keys, uniq_positions, Symbol,
};
use crate::semantic::node::{NodeId, Span};
use crate::semantic::parser::tree::Either;

use super::defs::{DefsView, FnId, TyDefView, TyId, VarId};
use super::rules::{
    all_defined, nr_bind_args, nr_declare_item, nr_declare_items, nr_define_alias, nr_define_data,
    nr_define_enum, nr_define_function, nr_define_item, nr_define_items, nr_resolve_block,
    nr_resolve_expr, nr_resolve_exprs, nr_resolve_function, nr_resolve_items, nr_resolve_opt_expr,
    nr_resolve_scoped_block, nr_resolve_stmt, nr_resolve_stmts, nr_resolve_type, nr_resolve_types,
    nr_declare_fn, nr_declare_type, type_span, unique_fields_of, variant_names, Hoisted, NrState,
};
use super::error::ResolutionError;
use super::scope::{ScopeKind, ScopesView, TableView};
use super::ty::TyView;

verus! {

/// Entering a scope and leaving it again gives back the scopes as they were.
pub proof fn law_enter_exit(s: ScopesView, kind: ScopeKind)
    ensures
        s.enter(kind).exit() == s,
{
    assert(s.enter(kind).exit().scopes =~= s.scopes);
}

/// A scope just entered binds nothing: from a block scope every name means
/// what it meant before; from a function scope types and functions do too,
/// but no variable of an enclosing scope is visible.
pub proof fn law_new_scope(s: ScopesView, name: Symbol)
    ensures
        s.enter(ScopeKind::Block).lookup_var(name) == s.lookup_var(name),
        s.enter(ScopeKind::Function).lookup_var(name) is None,
        s.enter(ScopeKind::Block).lookup_type(name) == s.lookup_type(name),
        s.enter(ScopeKind::Function).lookup_type(name) == s.lookup_type(name),
        s.enter(ScopeKind::Block).lookup_fn(name) == s.lookup_fn(name),
        s.enter(ScopeKind::Function).lookup_fn(name) == s.lookup_fn(name),
{
    assert(s.enter(ScopeKind::Block).scopes.drop_last() =~= s.scopes);
    assert(s.enter(ScopeKind::Function).scopes.drop_last() =~= s.scopes);
}

/// Binding a variable in the innermost scope: the name now denotes that
/// variable, shadowing any other, and every other name keeps its meaning.
pub proof fn law_bind_var(s: ScopesView, name: Symbol, v: VarId, other: Symbol)
    requires
        other != name,
    ensures
        s.with_current(s.current().bind_var(name, v)).lookup_var(name) == Some(v),
        s.with_current(s.current().bind_var(name, v)).lookup_var(other) == s.lookup_var(other),
{
    let t = s.with_current(s.current().bind_var(name, v));
    if s.scopes.len() > 0 {
        assert(t.scopes.drop_last() =~= s.scopes.drop_last());
    }
}

/// Binding a type name in the innermost scope: if the name was free there it
/// now denotes that type, and if it was bound there already nothing changes.
/// Every other name keeps its meaning.
pub proof fn law_bind_ty(s: ScopesView, name: Symbol, ty: TyView, other: Symbol)
    requires
        other != name,
    ensures
        !s.current().tys.contains_key(name) ==> s.with_current(s.current().bind_ty(name, ty).0).lookup_type(name)
            == Some(ty),
        s.current().tys.contains_key(name) ==> s.with_current(s.current().bind_ty(name, ty).0) == s,
        s.with_current(s.current().bind_ty(name, ty).0).lookup_type(other) == s.lookup_type(other),
{
    let t = s.with_current(s.current().bind_ty(name, ty).0);
    if s.scopes.len() > 0 {
        assert(t.scopes.drop_last() =~= s.scopes.drop_last());
        if s.current().tys.contains_key(name) {
            assert(t.scopes =~= s.scopes);
        }
    }
}

/// Binding a function name in the innermost scope: if the name was free
/// there it now denotes that function, and if it was bound there already
/// nothing changes. Every other name keeps its meaning.
pub proof fn law_bind_fn(s: ScopesView, name: Symbol, f: FnId, other: Symbol)
    requires
        other != name,
    ensures
        !s.current().fns.contains_key(name) ==> s.with_current(s.current().bind_fn(name, f).0).lookup_fn(name)
            == Some(f),
        s.current().fns.contains_key(name) ==> s.with_current(s.current().bind_fn(name, f).0) == s,
        s.with_current(s.current().bind_fn(name, f).0).lookup_fn(other) == s.lookup_fn(other),
{
    let t = s.with_current(s.current().bind_fn(name, f).0);
    if s.scopes.len() > 0 {
        assert(t.scopes.drop_last() =~= s.scopes.drop_last());
        if s.current().fns.contains_key(name) {
            assert(t.scopes =~= s.scopes);
        }
    }
}

/// A type id handed out and then defined reads back as that definition, and
/// no other slot changes.
pub proof fn law_define_then_read(d: DefsView, span: Span, def: TyDefView)
    requires
        d.tys.len() < usize::MAX,
    ensures
        ({
            let id = TyId(d.tys.len() as usize);
            let allocated = DefsView { tys: d.tys.push((span, None)), ..d };
            let defined = DefsView {
                tys: allocated.tys.update(id.0 as int, (allocated.tys[id.0 as int].0, Some(def))),
                ..allocated
            };
            &&& defined.ty_defined(id)
            &&& defined.ty(id) == def
            &&& defined.tys[id.0 as int].0 == span
            &&& forall|i: int| 0 <= i < d.tys.len() ==> #[trigger] defined.tys[i] == d.tys[i]
        }),
{
}

/// The name of an item is bound, as a type or as a function, in `t`.
pub open spec fn item_bound(t: TableView, item: ast::Item) -> bool {
    match item {
        ast::Item::TypeDef(td) => t.tys.contains_key(td.spec_name().value),
        ast::Item::Alias(a) => t.tys.contains_key(a.value.name.value),
        ast::Item::Function(f) => t.fns.contains_key(f.value.name.value),
    }
}

proof fn lemma_current_with(s: ScopesView, t: TableView)
    ensures
        s.with_current(t).current() == t,
        s.with_current(t).scopes.len() == s.scopes.len(),
{
}

/// Declaring an item keeps every name bound in the innermost scope bound.
proof fn lemma_declare_item_keeps(st: NrState, item: ast::Item, other: ast::Item)
    requires
        nr_declare_item(st, item) is Some,
    ensures
        item_bound(st.scopes.current(), other) ==> item_bound(
            nr_declare_item(st, item)->Some_0.0.scopes.current(),
            other,
        ),
        item_bound(nr_declare_item(st, item)->Some_0.0.scopes.current(), item),
{
    let s2 = nr_declare_item(st, item)->Some_0.0;
    match item {
        ast::Item::Function(f) => {
            let (t, _) = st.scopes.current().bind_fn(f.value.name.value, FnId(st.defs.fns.len() as usize));
            lemma_current_with(st.scopes, t);
        },
        ast::Item::TypeDef(td) => {
            let (t, _) = st.scopes.current().bind_ty(td.spec_name().value, TyView::Custom(TyId(st.defs.tys.len() as usize)));
            lemma_current_with(st.scopes, t);
        },
        ast::Item::Alias(a) => {
            let (t, _) = st.scopes.current().bind_ty(a.value.name.value, TyView::Custom(TyId(st.defs.tys.len() as usize)));
            lemma_current_with(st.scopes, t);
        },
    }
}

/// Items are hoisted: once the items of a scope are declared, the name of
/// every one of them is bound in that scope, so that each item can refer to
/// any other, whatever their order.
pub proof fn law_declared_items_bound(st: NrState, items: Seq<ast::Item>)
    requires
        nr_declare_items(st, items) is Some,
    ensures
        forall|j: int|
            0 <= j < items.len() ==> item_bound(
                nr_declare_items(st, items)->Some_0.0.scopes.current(),
                #[trigger] items[j],
            ),
    decreases items.len(),
{
    if items.len() > 0 {
        let prefix = items.drop_last();
        law_declared_items_bound(st, prefix);
        let s1 = nr_declare_items(st, prefix)->Some_0.0;
        assert forall|j: int| 0 <= j < items.len() implies item_bound(
            nr_declare_items(st, items)->Some_0.0.scopes.current(),
            #[trigger] items[j],
        ) by {
            if j < items.len() - 1 {
                assert(items[j] == prefix[j]);
                lemma_declare_item_keeps(s1, items.last(), items[j]);
            } else {
                lemma_declare_item_keeps(s1, items.last(), items.last());
            }
        }
    }
}

/// Once resolution is done every id that a resolution names can be read
/// back: the definitions hold a definition for it.
pub proof fn law_resolutions_defined(st: NrState, k: NodeId)
    requires
        st.wf(),
        all_defined(st.defs),
    ensures
        st.res.fns.contains_key(k) ==> st.defs.fn_defined(st.res.fns[k]),
        st.res.vars.contains_key(k) ==> match st.res.vars[k] {
            Either::Left(v) => st.defs.var_defined(v),
            Either::Right(f) => st.defs.fn_defined(f),
        },
        st.res.tys.contains_key(k) ==> (st.res.tys[k] matches TyView::Custom(id) ==> st.defs.ty_defined(id)),
{
    if st.res.fns.contains_key(k) {
        assert(st.defs.fns[st.res.fns[k].0 as int].1 is Some);
    }
    if st.res.vars.contains_key(k) {
        match st.res.vars[k] {
            Either::Left(v) => assert(st.defs.vars[v.0 as int].1 is Some),
            Either::Right(f) => assert(st.defs.fns[f.0 as int].1 is Some),
        }
    }
    if st.res.tys.contains_key(k) {
        if let TyView::Custom(id) = st.res.tys[k] {
            assert(st.defs.tys[id.0 as int].1 is Some);
        }
    }
}

// ---- resolution and the scope stack ----------------------------------------
/// `b` is `a` with at most the innermost scope changed: as many scopes are
/// open, the enclosing ones are untouched, and the innermost one is of the
/// same kind. With no scope open, only the root may change.
pub open spec fn keeps_outer(a: ScopesView, b: ScopesView) -> bool {
    &&& b.scopes.len() == a.scopes.len()
    &&& a.scopes.len() > 0 ==> {
        &&& b.root == a.root
        &&& b.scopes.last().kind == a.scopes.last().kind
        &&& forall|i: int| 0 <= i < a.scopes.len() - 1 ==> #[trigger] b.scopes[i] == a.scopes[i]
    }
}

proof fn lemma_keeps_refl(a: ScopesView)
    ensures
        keeps_outer(a, a),
{
}

proof fn lemma_keeps_with_current(a: ScopesView, t: TableView)
    ensures
        keeps_outer(a, a.with_current(t)),
{
}

proof fn lemma_keeps_trans(a: ScopesView, b: ScopesView, c: ScopesView)
    requires
        keeps_outer(a, b),
        keeps_outer(b, c),
    ensures
        keeps_outer(a, c),
{
    if a.scopes.len() > 0 {
        assert forall|i: int| 0 <= i < a.scopes.len() - 1 implies #[trigger] c.scopes[i] == a.scopes[i] by {
            assert(c.scopes[i] == b.scopes[i]);
        }
    }
}

/// Whatever happens inside a scope entered and then left, the scopes come
/// back as they were.
proof fn lemma_enter_exit_keeps(a: ScopesView, kind: ScopeKind, b: ScopesView)
    requires
        keeps_outer(a.enter(kind), b),
    ensures
        b.exit() == a,
{
    assert(b.exit().scopes =~= a.scopes);
}

proof fn lemma_type_scopes(st: NrState, ty: ast::RType)
    ensures
        nr_resolve_type(st, ty).0.scopes == st.scopes,
    decreases ty, 0nat,
{
    match *ty.value {
        ast::Type::Named(_) => {},
        ast::Type::Pointer(n) => lemma_type_scopes(st, n),
        ast::Type::Array(n) => lemma_type_scopes(st, n),
        ast::Type::Fn(n, nodes) => {
            lemma_type_scopes(st, n);
            lemma_types_scopes(nr_resolve_type(st, n).0, nodes@);
        },
    }
}

proof fn lemma_types_scopes(st: NrState, tys: Seq<ast::RType>)
    ensures
        nr_resolve_types(st, tys).0.scopes == st.scopes,
    decreases tys, 1nat,
{
    if tys.len() > 0 {
        lemma_types_scopes(st, tys.drop_last());
        lemma_type_scopes(nr_resolve_types(st, tys.drop_last()).0, tys.last());
    }
}

proof fn lemma_declare_items_scopes(st: NrState, items: Seq<ast::Item>)
    requires
        nr_declare_items(st, items) is Some,
    ensures
        keeps_outer(st.scopes, nr_declare_items(st, items)->Some_0.0.scopes),
    decreases items.len(),
{
    if items.len() == 0 {
        lemma_keeps_refl(st.scopes);
    } else {
        lemma_declare_items_scopes(st, items.drop_last());
        let s1 = nr_declare_items(st, items.drop_last())->Some_0.0;
        let s2 = nr_declare_item(s1, items.last())->Some_0.0;
        match items.last() {
            ast::Item::Function(f) => lemma_keeps_with_current(
                s1.scopes,
                s1.scopes.current().bind_fn(f.value.name.value, FnId(s1.defs.fns.len() as usize)).0,
            ),
            ast::Item::TypeDef(td) => lemma_keeps_with_current(
                s1.scopes,
                s1.scopes.current().bind_ty(
                    td.spec_name().value,
                    TyView::Custom(TyId(s1.defs.tys.len() as usize)),
                ).0,
            ),
            ast::Item::Alias(a) => lemma_keeps_with_current(
                s1.scopes,
                s1.scopes.current().bind_ty(a.value.name.value, TyView::Custom(TyId(s1.defs.tys.len() as usize))).0,
            ),
        }
        lemma_keeps_trans(st.scopes, s1.scopes, s2.scopes);
    }
}

proof fn lemma_bind_args_scopes(st: NrState, args: Seq<(ast::Ident, ast::RType)>)
    ensures
        keeps_outer(st.scopes, nr_bind_args(st, args).scopes),
    decreases args.len(),
{
    if args.len() == 0 {
        lemma_keeps_refl(st.scopes);
    } else {
        lemma_bind_args_scopes(st, args.drop_last());
        let s1 = nr_bind_args(st, args.drop_last());
        let (name, ty) = args.last();
        lemma_type_scopes(s1, ty);
        let s2 = nr_resolve_type(s1, ty).0;
        lemma_keeps_with_current(
            s2.scopes,
            s2.scopes.current().bind_var(name.value, VarId(s2.defs.vars.len() as usize)),
        );
        lemma_keeps_trans(st.scopes, s1.scopes, s2.new_var(name, super::defs::VarDef::Arg).0.scopes);
    }
}

proof fn lemma_items_scopes(st: NrState, items: Seq<ast::Item>)
    requires
        nr_resolve_items(st, items) is Some,
    ensures
        keeps_outer(st.scopes, nr_resolve_items(st, items)->Some_0.scopes),
    decreases items, 2nat, 0nat,
{
    lemma_declare_items_scopes(st, items);
    let (s1, hs) = nr_declare_items(st, items)->Some_0;
    lemma_define_items_scopes(s1, items, hs, items.len());
}

proof fn lemma_define_items_scopes(st: NrState, items: Seq<ast::Item>, hs: Seq<Hoisted>, k: nat)
    requires
        nr_define_items(st, items, hs, k) is Some,
    ensures
        nr_define_items(st, items, hs, k)->Some_0.scopes == st.scopes,
    decreases items, 1nat, k,
{
    if !(k == 0 || k > items.len()) {
        lemma_define_items_scopes(st, items, hs, (k - 1) as nat);
        let s1 = nr_define_items(st, items, hs, (k - 1) as nat)->Some_0;
        lemma_define_item_scopes(s1, items[k - 1], hs[k - 1]);
    }
}

proof fn lemma_define_item_scopes(st: NrState, item: ast::Item, h: Hoisted)
    requires
        nr_define_item(st, item, h) is Some,
    ensures
        nr_define_item(st, item, h)->Some_0.scopes == st.scopes,
    decreases item, 1nat, 0nat,
{
    match (item, h) {
        (ast::Item::TypeDef(ast::TypeDef::Data(d)), Hoisted::Ty(id)) => {
            let s1 = NrState { diags: st.diags + super::rules::field_dup_errors((*d.value).fields@), ..st };
            let kept = super::rules::unique_fields_of((*d.value).fields@);
            lemma_types_scopes(s1, kept.map_values(|f: (ast::Ident, ast::RType)| f.1));
        },
        (ast::Item::Alias(a), Hoisted::Ty(id)) => {
            lemma_type_scopes(st, (*a.value).ty);
        },
        (ast::Item::Function(f), Hoisted::Fn(id)) => {
            lemma_define_function_scopes(st, f, id);
        },
        _ => {},
    }
}

proof fn lemma_define_function_scopes(st: NrState, f: ast::RFunction, id: FnId)
    requires
        nr_define_function(st, f, id) is Some,
    ensures
        nr_define_function(st, f, id)->Some_0.scopes == st.scopes,
    decreases f, 1nat, 0nat,
{
    let func = *f.value;
    lemma_types_scopes(st, super::rules::arg_types(func.args@));
    let (s1, _) = nr_resolve_types(st, super::rules::arg_types(func.args@));
    lemma_type_scopes(s1, func.ret);
    let (s2, ret) = nr_resolve_type(s1, func.ret);
    let s3 = s2.define_fn(
        id,
        super::defs::FnDefView {
            args: Seq::new(
                func.args@.len(),
                |i: int| (func.args@[i].0.value, nr_resolve_types(st, super::rules::arg_types(func.args@)).1[i]),
            ),
            ret,
        },
    )->Some_0;
    let s4 = NrState { res: super::resolutions::ResolutionsView { fns: s3.res.fns.insert(f.id.node(), id), ..s3.res }, ..s3 };
    lemma_resolve_function_scopes(s4, f);
}

proof fn lemma_resolve_function_scopes(st: NrState, f: ast::RFunction)
    requires
        nr_resolve_function(st, f) is Some,
    ensures
        nr_resolve_function(st, f)->Some_0.scopes == st.scopes,
    decreases f, 0nat, 0nat,
{
    let s0 = st.enter(ScopeKind::Function);
    lemma_bind_args_scopes(s0, (*f.value).args@);
    let s1 = nr_bind_args(s0, (*f.value).args@);
    lemma_block_scopes(s1, *(*f.value).body.value);
    let s2 = nr_resolve_block(s1, *(*f.value).body.value)->Some_0;
    lemma_keeps_trans(s0.scopes, s1.scopes, s2.scopes);
    lemma_enter_exit_keeps(st.scopes, ScopeKind::Function, s2.scopes);
}

proof fn lemma_block_scopes(st: NrState, b: ast::Block)
    requires
        nr_resolve_block(st, b) is Some,
    ensures
        keeps_outer(st.scopes, nr_resolve_block(st, b)->Some_0.scopes),
    decreases b, 1nat, 0nat,
{
    lemma_items_scopes(st, b.items@);
    let s1 = nr_resolve_items(st, b.items@)->Some_0;
    lemma_stmts_scopes(s1, b.stmts@);
    let s2 = nr_resolve_stmts(s1, b.stmts@)->Some_0;
    lemma_keeps_trans(st.scopes, s1.scopes, s2.scopes);
    if let Some(t) = b.tail {
        law_resolve_expr_scopes(s2, t);
    }
}

proof fn lemma_scoped_block_scopes(st: NrState, b: ast::Block)
    requires
        nr_resolve_scoped_block(st, b) is Some,
    ensures
        nr_resolve_scoped_block(st, b)->Some_0.scopes == st.scopes,
    decreases b, 2nat, 0nat,
{
    lemma_block_scopes(st.enter(ScopeKind::Block), b);
    let s = nr_resolve_block(st.enter(ScopeKind::Block), b)->Some_0;
    lemma_enter_exit_keeps(st.scopes, ScopeKind::Block, s.scopes);
}

proof fn lemma_stmts_scopes(st: NrState, ss: Seq<ast::RStmt>)
    requires
        nr_resolve_stmts(st, ss) is Some,
    ensures
        keeps_outer(st.scopes, nr_resolve_stmts(st, ss)->Some_0.scopes),
    decreases ss, 1nat, 0nat,
{
    if ss.len() == 0 {
        lemma_keeps_refl(st.scopes);
    } else {
        lemma_stmts_scopes(st, ss.drop_last());
        let s1 = nr_resolve_stmts(st, ss.drop_last())->Some_0;
        law_resolve_stmt_scopes(s1, *ss.last().value);
        let s2 = nr_resolve_stmt(s1, *ss.last().value)->Some_0;
        lemma_keeps_trans(st.scopes, s1.scopes, s2.scopes);
    }
}

proof fn lemma_opt_expr_scopes(st: NrState, e: Option<ast::RExpr>)
    requires
        nr_resolve_opt_expr(st, e) is Some,
    ensures
        nr_resolve_opt_expr(st, e)->Some_0.scopes == st.scopes,
    decreases e, 1nat, 0nat,
{
    if let Some(v) = e {
        law_resolve_expr_scopes(st, v);
    }
}

/// Resolving a statement leaves the scope stack as it found it: every scope
/// entered for a nested block, loop, branch or function is left again, and
/// the only change is that a `let` binds its name, in the innermost scope,
/// to the variable that its resolution records.
pub proof fn law_resolve_stmt_scopes(st: NrState, s: ast::Stmt)
    requires
        nr_resolve_stmt(st, s) is Some,
    ensures
        keeps_outer(st.scopes, nr_resolve_stmt(st, s)->Some_0.scopes),
        ({
            let s2 = nr_resolve_stmt(st, s)->Some_0;
            match s {
                ast::Stmt::Let { name, .. } => {
                    &&& s2.res.vars.contains_key(name.id.node())
                    &&& s2.res.vars[name.id.node()] is Left
                    &&& s2.scopes == st.scopes.with_current(
                        st.scopes.current().bind_var(name.value, s2.res.vars[name.id.node()]->Left_0),
                    )
                },
                _ => s2.scopes == st.scopes,
            }
        }),
    decreases s, 0nat, 0nat,
{
    let s2 = nr_resolve_stmt(st, s)->Some_0;
    match s {
        ast::Stmt::Expr(e) => law_resolve_expr_scopes(st, e),
        ast::Stmt::Let { name, ty, value } => {
            let s1 = match ty {
                Some(t) => nr_resolve_type(st, t).0,
                None => st,
            };
            if let Some(t) = ty {
                lemma_type_scopes(st, t);
            }
            law_resolve_expr_scopes(s1, value);
            let s3 = nr_resolve_expr(s1, value)->Some_0;
            let id = VarId(s3.defs.vars.len() as usize);
            lemma_keeps_with_current(st.scopes, st.scopes.current().bind_var(name.value, id));
        },
        ast::Stmt::Assign { place, value } => {
            law_resolve_expr_scopes(st, value);
            law_resolve_expr_scopes(nr_resolve_expr(st, value)->Some_0, place);
        },
        ast::Stmt::Return { value } => lemma_opt_expr_scopes(st, value),
        ast::Stmt::Loop { body } => lemma_scoped_block_scopes(st, *body.value),
        ast::Stmt::Break { value } => lemma_opt_expr_scopes(st, value),
        ast::Stmt::Continue => {},
        ast::Stmt::If { cond, then_block, else_block } => {
            law_resolve_expr_scopes(st, cond);
            let s1 = nr_resolve_expr(st, cond)->Some_0;
            lemma_scoped_block_scopes(s1, *then_block.value);
            let s3 = nr_resolve_scoped_block(s1, *then_block.value)->Some_0;
            match else_block {
                Some(b) => lemma_scoped_block_scopes(s3, *b.value),
                None => law_enter_exit(s3.scopes, ScopeKind::Block),
            }
        },
    }
    if !(s is Let) {
        lemma_keeps_refl(st.scopes);
    }
}

/// Resolving an expression leaves the scope stack as it found it: every
/// scope entered for a nested block is left again.
pub proof fn law_resolve_expr_scopes(st: NrState, e: ast::RExpr)
    requires
        nr_resolve_expr(st, e) is Some,
    ensures
        nr_resolve_expr(st, e)->Some_0.scopes == st.scopes,
    decreases e, 0nat, 0nat,
{
    match *e.value {
        ast::Expr::Grouping(n) => law_resolve_expr_scopes(st, n),
        ast::Expr::Binary { lhs, rhs, .. } => {
            law_resolve_expr_scopes(st, lhs);
            law_resolve_expr_scopes(nr_resolve_expr(st, lhs)->Some_0, rhs);
        },
        ast::Expr::Unary { rhs, .. } => law_resolve_expr_scopes(st, rhs),
        ast::Expr::Field { lhs, .. } => law_resolve_expr_scopes(st, lhs),
        ast::Expr::Call { lhs, args } => {
            law_resolve_expr_scopes(st, lhs);
            lemma_exprs_scopes(nr_resolve_expr(st, lhs)->Some_0, args@);
        },
        ast::Expr::MethodCall { lhs, args, .. } => {
            law_resolve_expr_scopes(st, lhs);
            lemma_exprs_scopes(nr_resolve_expr(st, lhs)->Some_0, args@);
        },
        ast::Expr::Index { lhs, index } => {
            law_resolve_expr_scopes(st, lhs);
            law_resolve_expr_scopes(nr_resolve_expr(st, lhs)->Some_0, index);
        },
        ast::Expr::Ref(n) => law_resolve_expr_scopes(st, n),
        ast::Expr::Deref(n) => law_resolve_expr_scopes(st, n),
        ast::Expr::Block(b) => lemma_scoped_block_scopes(st, *b.value),
        _ => {},
    }
}

proof fn lemma_exprs_scopes(st: NrState, es: Seq<ast::RExpr>)
    requires
        nr_resolve_exprs(st, es) is Some,
    ensures
        nr_resolve_exprs(st, es)->Some_0.scopes == st.scopes,
    decreases es, 1nat, 0nat,
{
    if es.len() > 0 {
        lemma_exprs_scopes(st, es.drop_last());
        law_resolve_expr_scopes(nr_resolve_exprs(st, es.drop_last())->Some_0, es.last());
    }
}

// ---- resolving types --------------------------------------------------------
/// The resolved type `t` has the shape of the type node `ty`: a pointer for
/// a pointer, an array for an array, a function type with as many
/// parameters for a function type, each part with the shape of its node.
pub open spec fn shape_matches(ty: ast::RType, t: TyView) -> bool
    decreases ty, 0nat,
{
    match *ty.value {
        ast::Type::Named(_) => true,
        ast::Type::Pointer(n) => t is Pointer && shape_matches(n, *t->Pointer_0),
        ast::Type::Array(n) => t is Array && shape_matches(n, *t->Array_0),
        ast::Type::Fn(r, ps) => t is Fn && shape_matches(r, *t->Fn_0) && shapes_match(ps@, t->Fn_1),
    }
}

pub open spec fn shapes_match(tys: Seq<ast::RType>, ts: Seq<TyView>) -> bool
    decreases tys, 1nat,
{
    &&& tys.len() == ts.len()
    &&& tys.len() > 0 ==> shapes_match(tys.drop_last(), ts.drop_last()) && shape_matches(tys.last(), ts.last())
}

/// Resolving a type node keeps its shape; a name resolves to the type that
/// the scopes bind it to, or to `Unknown` where they bind it to none; a
/// pointer or array node resolves to a pointer to, or array of, what its
/// element resolves to; and the node records what it resolved to.
pub proof fn law_resolve_type(st: NrState, ty: ast::RType)
    ensures
        shape_matches(ty, nr_resolve_type(st, ty).1),
        nr_resolve_type(st, ty).0.res.tys[ty.id.node()] == nr_resolve_type(st, ty).1,
        nr_resolve_type(st, ty).0.res.tys.contains_key(ty.id.node()),
        (*ty.value is Named) ==> nr_resolve_type(st, ty).1 == (match st.scopes.lookup_type(
            (*ty.value)->Named_0.value,
        ) {
            Some(t) => t,
            None => TyView::Unknown,
        }),
        (*ty.value is Pointer) ==> nr_resolve_type(st, ty).1 == TyView::Pointer(
            Box::new(nr_resolve_type(st, (*ty.value)->Pointer_0).1),
        ),
        (*ty.value is Array) ==> nr_resolve_type(st, ty).1 == TyView::Array(
            Box::new(nr_resolve_type(st, (*ty.value)->Array_0).1),
        ),
    decreases ty, 0nat,
{
    match *ty.value {
        ast::Type::Named(_) => {},
        ast::Type::Pointer(n) => law_resolve_type(st, n),
        ast::Type::Array(n) => law_resolve_type(st, n),
        ast::Type::Fn(n, nodes) => {
            law_resolve_type(st, n);
            lemma_resolve_types_shape(nr_resolve_type(st, n).0, nodes@);
        },
    }
}

proof fn lemma_resolve_types_shape(st: NrState, tys: Seq<ast::RType>)
    ensures
        shapes_match(tys, nr_resolve_types(st, tys).1),
    decreases tys, 1nat,
{
    if tys.len() > 0 {
        lemma_resolve_types_shape(st, tys.drop_last());
        let (s1, ts) = nr_resolve_types(st, tys.drop_last());
        law_resolve_type(s1, tys.last());
        let t = nr_resolve_type(s1, tys.last()).1;
        assert(ts.push(t).drop_last() =~= ts);
    }
}

// ---- names -------------------------------------------------------------------
/// A name used as a value refers to the variable the scopes bind it to; if
/// none, to the function they bind it to; if none, it is reported as
/// unknown. Nothing else changes.
pub proof fn law_resolve_variable(st: NrState, e: ast::RExpr)
    requires
        *e.value is Variable,
    ensures
        ({
            let name = (*e.value)->Variable_0;
            let r = nr_resolve_expr(st, e)->Some_0;
            &&& nr_resolve_expr(st, e) is Some
            &&& r.scopes == st.scopes && r.defs == st.defs
            &&& st.scopes.lookup_var(name.value) is Some ==> r.res.vars == st.res.vars.insert(
                name.id.node(),
                Either::Left(st.scopes.lookup_var(name.value)->Some_0),
            ) && r.diags == st.diags
            &&& (st.scopes.lookup_var(name.value) is None && st.scopes.lookup_fn(name.value) is Some)
                ==> r.res.vars == st.res.vars.insert(name.id.node(), Either::Right(st.scopes.lookup_fn(name.value)->Some_0))
                && r.diags == st.diags
            &&& (st.scopes.lookup_var(name.value) is None && st.scopes.lookup_fn(name.value) is None)
                ==> r.res == st.res && r.diags == st.diags.push(
                ResolutionError::UnknownName { span: name.span, name: name.value },
            )
        }),
{
}

/// Declaring a type whose name is free in the innermost scope binds it
/// there to a new type id and reports nothing; declaring one whose name is
/// bound there already keeps the first binding and reports both places.
pub proof fn law_declare_type(st: NrState, name: ast::Ident)
    requires
        nr_declare_type(st, name) is Some,
    ensures
        ({
            let (s, h) = nr_declare_type(st, name)->Some_0;
            let id = TyId(st.defs.tys.len() as usize);
            &&& h == Hoisted::Ty(id)
            &&& s.defs.tys == st.defs.tys.push((name.span, None))
            &&& !st.scopes.current().tys.contains_key(name.value) ==> {
                &&& s.scopes.current().tys == st.scopes.current().tys.insert(name.value, TyView::Custom(id))
                &&& s.diags == st.diags
            }
            &&& st.scopes.current().tys.contains_key(name.value) ==> {
                &&& s.scopes.current() == st.scopes.current()
                &&& s.diags == st.diags.push(
                    ResolutionError::DuplicateTypeDefinition {
                        symbol: name.value,
                        original: type_span(s.defs, st.scopes.current().tys[name.value])->Some_0,
                        duplicate: name.span,
                    },
                )
            }
        }),
{
    let id = TyId(st.defs.tys.len() as usize);
    let (t, _) = st.scopes.current().bind_ty(name.value, TyView::Custom(id));
    lemma_current_with(st.scopes, t);
}

/// Declaring a function whose name is free in the innermost scope binds it
/// there to a new function id and reports nothing; declaring one whose name
/// is bound there already keeps the first binding and reports both places.
pub proof fn law_declare_fn(st: NrState, name: ast::Ident)
    requires
        nr_declare_fn(st, name) is Some,
    ensures
        ({
            let (s, h) = nr_declare_fn(st, name)->Some_0;
            let id = FnId(st.defs.fns.len() as usize);
            &&& h == Hoisted::Fn(id)
            &&& s.defs.fns == st.defs.fns.push((name.span, None))
            &&& !st.scopes.current().fns.contains_key(name.value) ==> {
                &&& s.scopes.current().fns == st.scopes.current().fns.insert(name.value, id)
                &&& s.diags == st.diags
            }
            &&& st.scopes.current().fns.contains_key(name.value) ==> {
                &&& s.scopes.current() == st.scopes.current()
                &&& s.diags == st.diags.push(
                    ResolutionError::DuplicateFunctionDefinition {
                        symbol: name.value,
                        original: s.defs.fns[st.scopes.current().fns[name.value].0 as int].0,
                        duplicate: name.span,
                    },
                )
            }
        }),
{
    let id = FnId(st.defs.fns.len() as usize);
    let (t, _) = st.scopes.current().bind_fn(name.value, id);
    lemma_current_with(st.scopes, t);
}

// ---- definitions of types ----------------------------------------------------
/// An enum is defined by its variant names without repetition: no name
/// twice, every variant's name present, no other name; each repeated
/// variant adds one error.
pub proof fn law_define_enum(st: NrState, e: ast::EnumDef, id: TyId)
    requires
        nr_define_enum(st, e, id) is Some,
    ensures
        ({
            let s = nr_define_enum(st, e, id)->Some_0;
            let names = variant_names(e.variants@);
            &&& s.defs.ty_defined(id)
            &&& s.defs.ty(id) is Enum
            &&& forall|i: int, j: int|
                0 <= i < j < s.defs.ty(id)->variants.len() ==> s.defs.ty(id)->variants[i]
                    != s.defs.ty(id)->variants[j]
            &&& forall|p: int| 0 <= p < names.len() ==> s.defs.ty(id)->variants.contains(#[trigger] names[p])
            &&& forall|i: int|
                0 <= i < s.defs.ty(id)->variants.len() ==> names.contains(#[trigger] s.defs.ty(id)->variants[i])
            &&& s.diags.len() == st.diags.len() + names.len() - s.defs.ty(id)->variants.len()
        }),
{
    let names = variant_names(e.variants@);
    let u = uniq_positions(names);
    law_uniq_positions(names);
    law_dup_pairs(names);
    let vs = u.map_values(|p: int| names[p]);
    let s = nr_define_enum(st, e, id)->Some_0;
    assert(s.defs.ty(id)->variants == vs);
    assert forall|i: int, j: int| 0 <= i < j < vs.len() implies vs[i] != vs[j] by {
        assert(vs[i] == names[u[i]] && vs[j] == names[u[j]]);
    }
    assert forall|p: int| 0 <= p < names.len() implies vs.contains(#[trigger] names[p]) by {
        let i = choose|i: int| 0 <= i < u.len() && names[#[trigger] u[i]] == names[p];
        assert(vs[i] == names[p]);
    }
    assert forall|i: int| 0 <= i < vs.len() implies names.contains(#[trigger] vs[i]) by {
        lemma_uniq_in_range(names, i);
        assert(names[u[i]] == vs[i]);
    }
}

/// A struct is defined by its field names without repetition: no name
/// twice, every field's name present, no other name; each repeated field
/// adds one error.
pub proof fn law_define_data_names(st: NrState, d: ast::DataDef, id: TyId)
    requires
        nr_define_data(st, d, id) is Some,
    ensures
        ({
            let s = nr_define_data(st, d, id)->Some_0;
            let names = named_keys(d.fields@);
            let fs = s.defs.ty(id)->fields;
            &&& s.defs.ty_defined(id)
            &&& s.defs.ty(id) is Struct
            &&& forall|i: int, j: int| 0 <= i < j < fs.len() ==> fs[i].0 != fs[j].0
            &&& forall|p: int| #![trigger names[p]] 0 <= p < names.len() ==> exists|i: int| 0 <= i < fs.len() && #[trigger] fs[i].0 == names[p]
            &&& forall|i: int| 0 <= i < fs.len() ==> names.contains(#[trigger] fs[i].0)
        }),
{
    let names = named_keys(d.fields@);
    let u = uniq_positions(names);
    law_uniq_positions(names);
    let kept = unique_fields_of(d.fields@);
    let s = nr_define_data(st, d, id)->Some_0;
    let fs = s.defs.ty(id)->fields;
    assert(fs.len() == u.len());
    assert forall|i: int| 0 <= i < fs.len() implies #[trigger] fs[i].0 == names[u[i]] by {
        lemma_uniq_in_range(names, i);
        assert(kept[i] == d.fields@[u[i]]);
    }
    assert forall|i: int, j: int| 0 <= i < j < fs.len() implies fs[i].0 != fs[j].0 by {
        assert(fs[i].0 == names[u[i]] && fs[j].0 == names[u[j]]);
    }
    assert forall|p: int| #![trigger names[p]] 0 <= p < names.len() implies exists|i: int| 0 <= i < fs.len() && #[trigger] fs[i].0 == names[p] by {
        let i = choose|i: int| 0 <= i < u.len() && names[#[trigger] u[i]] == names[p];
        assert(fs[i].0 == names[p]);
    }
    assert forall|i: int| 0 <= i < fs.len() implies names.contains(#[trigger] fs[i].0) by {
        lemma_uniq_in_range(names, i);
        assert(names[u[i]] == fs[i].0);
    }
}

} // verus!
