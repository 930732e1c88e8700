//! The hir that type checking builds is well formed: every expression refers
//! only to expressions added to the arena before it, and every id in a
//! function body names an expression of the arena.
use vstd::prelude::*;

use crate::semantic::ast::{self, first_pos, lemma_first_pos, BinOp, Ident, Symbol, UnOp};
use crate::semantic::parser::token::Literal;
use crate::semantic::parser::tree::Either;
use crate::semantic::nameres::{BuiltinTy, TyDefView, TyId, TyView};
use crate::semantic::node::Span;

use super::hir::{BlockView, ExprId, ExprView, ModuleView, StmtView};
use super::rules::{
    arg_mismatches, check_call, check_field, check_field_fuel, field_fuel, field_names, infer_binary,
    spec_fits, spec_is_equatable, spec_is_numeric, spec_is_ordered, tc_args, tc_block, tc_expr,
    tc_exprs, tc_function, tc_items, tc_stmt, tc_stmts, TcCtx, TcState, TypeErrorView, check_type,
    infer_unary, check_deref, check_index, spec_block_breaks, spec_stmts_break, spec_stmt_breaks, spec_expr_breaks, spec_is_integer, spec_is_signed_integer, spec_is_float,
};

verus! {

/// Every expression id in the block is below `n`.
pub open spec fn block_below(b: BlockView, n: int) -> bool
    decreases b, 2nat,
{
    stmts_below(b.stmts, n) && match b.tail {
        Some(t) => t.0 < n,
        None => true,
    }
}

pub open spec fn stmts_below(ss: Seq<StmtView>, n: int) -> bool
    decreases ss, 1nat,
{
    if ss.len() == 0 {
        true
    } else {
        stmts_below(ss.drop_last(), n) && stmt_below(ss.last(), n)
    }
}

pub open spec fn opt_below(e: Option<ExprId>, n: int) -> bool {
    match e {
        Some(id) => id.0 < n,
        None => true,
    }
}

pub open spec fn stmt_below(s: StmtView, n: int) -> bool
    decreases s, 0nat,
{
    match s {
        StmtView::Expr(e) => e.0 < n,
        StmtView::Let { value, .. } => value.0 < n,
        StmtView::Assign { place, value } => place.0 < n && value.0 < n,
        StmtView::Return { value } => opt_below(value, n),
        StmtView::Loop { body } => block_below(body, n),
        StmtView::Break { value } => opt_below(value, n),
        StmtView::Continue => true,
        StmtView::If { cond, then_block, else_block } => cond.0 < n && block_below(then_block, n)
            && match else_block {
            Some(b) => block_below(b, n),
            None => true,
        },
    }
}

/// Every expression id that `e` refers to is below `n`.
pub open spec fn expr_below(e: ExprView, n: int) -> bool {
    match e {
        ExprView::Literal(_) | ExprView::Variable(_) | ExprView::Function(_) => true,
        ExprView::Grouping(g) => g.0 < n,
        ExprView::Binary { lhs, rhs, .. } => lhs.0 < n && rhs.0 < n,
        ExprView::Unary { rhs, .. } => rhs.0 < n,
        ExprView::Field { lhs, .. } => lhs.0 < n,
        ExprView::Call { lhs, args } => lhs.0 < n && forall|i: int| 0 <= i < args.len() ==> (#[trigger] args[i]).0 < n,
        ExprView::Index { lhs, index } => lhs.0 < n && index.0 < n,
        ExprView::Ref(r) => r.0 < n,
        ExprView::Deref(d) => d.0 < n,
        ExprView::Block(b) => block_below(b, n),
    }
}

/// Every expression of the arena refers only to expressions before it.
pub open spec fn arena_wf(exprs: Seq<ExprView>) -> bool {
    forall|i: int| 0 <= i < exprs.len() ==> expr_below(#[trigger] exprs[i], i)
}

/// The arena is well formed and every function body refers only to
/// expressions of the arena.
pub open spec fn module_wf(m: ModuleView) -> bool {
    &&& arena_wf(m.exprs)
    &&& forall|f| #[trigger] m.functions.contains_key(f) ==> block_below(m.functions[f], m.exprs.len() as int)
}

/// `b` keeps the expressions of `a` and may add more after them.
pub open spec fn extends(a: Seq<ExprView>, b: Seq<ExprView>) -> bool {
    a.len() <= b.len() && forall|i: int| 0 <= i < a.len() ==> #[trigger] b[i] == a[i]
}

proof fn lemma_stmts_push(ss: Seq<StmtView>, s: StmtView, n: int)
    ensures
        stmts_below(ss.push(s), n) == (stmts_below(ss, n) && stmt_below(s, n)),
{
    assert(ss.push(s).drop_last() =~= ss);
}

proof fn lemma_block_mono(b: BlockView, n: int, m: int)
    requires
        block_below(b, n),
        n <= m,
    ensures
        block_below(b, m),
    decreases b, 2nat,
{
    lemma_stmts_mono(b.stmts, n, m);
}

proof fn lemma_stmts_mono(ss: Seq<StmtView>, n: int, m: int)
    requires
        stmts_below(ss, n),
        n <= m,
    ensures
        stmts_below(ss, m),
    decreases ss, 1nat,
{
    if ss.len() > 0 {
        lemma_stmts_mono(ss.drop_last(), n, m);
        lemma_stmt_mono(ss.last(), n, m);
    }
}

proof fn lemma_stmt_mono(s: StmtView, n: int, m: int)
    requires
        stmt_below(s, n),
        n <= m,
    ensures
        stmt_below(s, m),
    decreases s, 0nat,
{
    match s {
        StmtView::Loop { body } => lemma_block_mono(body, n, m),
        StmtView::If { then_block, else_block, .. } => {
            lemma_block_mono(then_block, n, m);
            if let Some(b) = else_block {
                lemma_block_mono(b, n, m);
            }
        },
        _ => {},
    }
}

/// Adding an expression whose references are all earlier keeps the arena
/// well formed.
proof fn lemma_push_wf(a: Seq<ExprView>, e: ExprView)
    requires
        arena_wf(a),
        expr_below(e, a.len() as int),
    ensures
        arena_wf(a.push(e)),
        extends(a, a.push(e)),
{
    assert forall|i: int| 0 <= i < a.push(e).len() implies expr_below(#[trigger] a.push(e)[i], i) by {
        if i < a.len() {
            assert(a.push(e)[i] == a[i]);
        }
    }
}

proof fn lemma_arg_mismatches(st: TcState, args: Seq<TyView>, params: Seq<TyView>, span: Span, n: nat)
    ensures
        arg_mismatches(st, args, params, span, n).exprs == st.exprs,
    decreases n,
{
    if n > 0 {
        lemma_arg_mismatches(st, args, params, span, (n - 1) as nat);
    }
}

proof fn lemma_check_call(st: TcState, func: TyView, args: Seq<TyView>, span: Span)
    ensures
        check_call(st, func, args, span).0.exprs == st.exprs,
    decreases func,
{
    match func {
        TyView::Pointer(t) => lemma_check_call(st, *t, args, span),
        TyView::Fn(_, params) => {
            let n = if args.len() < params.len() {
                args.len()
            } else {
                params.len()
            };
            lemma_arg_mismatches(st, args, params, span, n);
        },
        _ => {},
    }
}

proof fn lemma_check_field_fuel(c: TcCtx, st: TcState, ty: TyView, field: Ident, fuel: nat)
    ensures
        check_field_fuel(c, st, ty, field, fuel) matches Some((s, _, _)) ==> s.exprs == st.exprs,
    decreases fuel,
{
    if fuel > 0 {
        match ty {
            TyView::Pointer(t) => lemma_check_field_fuel(c, st, *t, field, (fuel - 1) as nat),
            TyView::Custom(id) => {
                if c.defs.ty_defined(id) {
                    if let crate::semantic::nameres::TyDefView::Alias(t) = c.defs.ty(id) {
                        lemma_check_field_fuel(c, st, t, field, (fuel - 1) as nat);
                    }
                }
            },
            _ => {},
        }
    }
}

proof fn lemma_check_field(c: TcCtx, st: TcState, ty: TyView, field: Ident)
    ensures
        check_field(c, st, ty, field) matches Some((s, _, _)) ==> s.exprs == st.exprs,
{
    lemma_check_field_fuel(c, st, ty, field, field_fuel(c, st, ty, field));
}

/// Checking an expression keeps the arena well formed, only adds to it,
/// and yields the id of an expression of the arena.
pub proof fn lemma_tc_expr_wf(c: TcCtx, st: TcState, e: ast::RExpr, ret: TyView)
    requires
        tc_expr(c, st, e, ret) is Some,
        arena_wf(st.exprs),
    ensures
        ({
            let (s, id, _) = tc_expr(c, st, e, ret)->Some_0;
            arena_wf(s.exprs) && extends(st.exprs, s.exprs) && id.0 < s.exprs.len()
        }),
    decreases e, 0nat,
{
    let (s, id, _) = tc_expr(c, st, e, ret)->Some_0;
    match *e.value {
        ast::Expr::Literal(_) => {
            lemma_push_wf(st.exprs, s.exprs.last());
        },
        ast::Expr::Variable(_) => {
            lemma_push_wf(st.exprs, s.exprs.last());
        },
        ast::Expr::Grouping(n) => {
            lemma_tc_expr_wf(c, st, n, ret);
        },
        ast::Expr::Binary { lhs, rhs, op } => {
            lemma_tc_expr_wf(c, st, lhs, ret);
            let (s1, l, lt) = tc_expr(c, st, lhs, ret)->Some_0;
            lemma_tc_expr_wf(c, s1, rhs, ret);
            let (s2, r, rt) = tc_expr(c, s1, rhs, ret)->Some_0;
            lemma_push_wf(s2.exprs, ExprView::Binary { lhs: l, rhs: r, op });
        },
        ast::Expr::Unary { rhs, op } => {
            lemma_tc_expr_wf(c, st, rhs, ret);
            let (s1, r, rt) = tc_expr(c, st, rhs, ret)->Some_0;
            lemma_push_wf(s1.exprs, ExprView::Unary { rhs: r, op });
        },
        ast::Expr::Field { lhs, name } => {
            lemma_tc_expr_wf(c, st, lhs, ret);
            let (s1, l, lt) = tc_expr(c, st, lhs, ret)->Some_0;
            lemma_check_field(c, s1, lt, name);
            let (s2, index, _) = check_field(c, s1, lt, name)->Some_0;
            lemma_push_wf(s2.exprs, ExprView::Field { lhs: l, index });
        },
        ast::Expr::Call { lhs, args } => {
            lemma_tc_expr_wf(c, st, lhs, ret);
            let (s1, f, ft) = tc_expr(c, st, lhs, ret)->Some_0;
            lemma_tc_exprs_wf(c, s1, args@, ret);
            let (s2, ids, tys) = tc_exprs(c, s1, args@, ret)->Some_0;
            lemma_check_call(s2, ft, tys, e.span);
            lemma_push_wf(s2.exprs, ExprView::Call { lhs: f, args: ids });
        },
        ast::Expr::MethodCall { .. } => {},
        ast::Expr::Index { lhs, index } => {
            lemma_tc_expr_wf(c, st, lhs, ret);
            let (s1, l, lt) = tc_expr(c, st, lhs, ret)->Some_0;
            lemma_tc_expr_wf(c, s1, index, ret);
            let (s2, i, it) = tc_expr(c, s1, index, ret)->Some_0;
            lemma_push_wf(s2.exprs, ExprView::Index { lhs: l, index: i });
        },
        ast::Expr::Ref(n) => {
            lemma_tc_expr_wf(c, st, n, ret);
            let (s1, r, _) = tc_expr(c, st, n, ret)->Some_0;
            lemma_push_wf(s1.exprs, ExprView::Ref(r));
        },
        ast::Expr::Deref(n) => {
            lemma_tc_expr_wf(c, st, n, ret);
            let (s1, r, _) = tc_expr(c, st, n, ret)->Some_0;
            lemma_push_wf(s1.exprs, ExprView::Deref(r));
        },
        ast::Expr::Block(b) => {
            lemma_tc_block_wf(c, st, *b.value, ret);
            let (s1, hb, _) = tc_block(c, st, *b.value, ret)->Some_0;
            lemma_push_wf(s1.exprs, ExprView::Block(hb));
        },
    }
}

pub proof fn lemma_tc_exprs_wf(c: TcCtx, st: TcState, es: Seq<ast::RExpr>, ret: TyView)
    requires
        tc_exprs(c, st, es, ret) is Some,
        arena_wf(st.exprs),
    ensures
        ({
            let (s, ids, _) = tc_exprs(c, st, es, ret)->Some_0;
            &&& arena_wf(s.exprs)
            &&& extends(st.exprs, s.exprs)
            &&& forall|i: int| 0 <= i < ids.len() ==> (#[trigger] ids[i]).0 < s.exprs.len()
        }),
    decreases es, 1nat,
{
    if es.len() > 0 {
        lemma_tc_exprs_wf(c, st, es.drop_last(), ret);
        let (s1, ids, _) = tc_exprs(c, st, es.drop_last(), ret)->Some_0;
        lemma_tc_expr_wf(c, s1, es.last(), ret);
        let (s2, id, _) = tc_expr(c, s1, es.last(), ret)->Some_0;
        assert forall|i: int| 0 <= i < ids.push(id).len() implies (#[trigger] ids.push(id)[i]).0 < s2.exprs.len() by {
            if i < ids.len() {
                assert(ids.push(id)[i] == ids[i]);
            }
        }
    }
}

pub proof fn lemma_tc_block_wf(c: TcCtx, st: TcState, b: ast::Block, ret: TyView)
    requires
        tc_block(c, st, b, ret) is Some,
        arena_wf(st.exprs),
    ensures
        ({
            let (s, hb, _) = tc_block(c, st, b, ret)->Some_0;
            arena_wf(s.exprs) && extends(st.exprs, s.exprs) && block_below(hb, s.exprs.len() as int)
        }),
    decreases b, 0nat,
{
    lemma_tc_stmts_wf(c, st, b.stmts@, ret);
    let (s1, hs, _) = tc_stmts(c, st, b.stmts@, ret)->Some_0;
    if let Some(t) = b.tail {
        lemma_tc_expr_wf(c, s1, t, ret);
        let (s2, _, _) = tc_expr(c, s1, t, ret)->Some_0;
        lemma_stmts_mono(hs, s1.exprs.len() as int, s2.exprs.len() as int);
    }
}

pub proof fn lemma_tc_stmts_wf(c: TcCtx, st: TcState, ss: Seq<ast::RStmt>, ret: TyView)
    requires
        tc_stmts(c, st, ss, ret) is Some,
        arena_wf(st.exprs),
    ensures
        ({
            let (s, hs, _) = tc_stmts(c, st, ss, ret)->Some_0;
            arena_wf(s.exprs) && extends(st.exprs, s.exprs) && stmts_below(hs, s.exprs.len() as int)
        }),
    decreases ss, 1nat,
{
    if ss.len() > 0 {
        lemma_tc_stmts_wf(c, st, ss.drop_last(), ret);
        let (s1, hs, _) = tc_stmts(c, st, ss.drop_last(), ret)->Some_0;
        lemma_tc_stmt_wf(c, s1, *ss.last().value, ret);
        let (s2, h, _) = tc_stmt(c, s1, *ss.last().value, ret)->Some_0;
        lemma_stmts_mono(hs, s1.exprs.len() as int, s2.exprs.len() as int);
        lemma_stmts_push(hs, h, s2.exprs.len() as int);
    }
}

pub proof fn lemma_tc_stmt_wf(c: TcCtx, st: TcState, s: ast::Stmt, ret: TyView)
    requires
        tc_stmt(c, st, s, ret) is Some,
        arena_wf(st.exprs),
    ensures
        ({
            let (s2, h, _) = tc_stmt(c, st, s, ret)->Some_0;
            arena_wf(s2.exprs) && extends(st.exprs, s2.exprs) && stmt_below(h, s2.exprs.len() as int)
        }),
    decreases s, 0nat,
{
    match s {
        ast::Stmt::Expr(e) => {
            lemma_tc_expr_wf(c, st, e, ret);
        },
        ast::Stmt::Let { value, .. } => {
            lemma_tc_expr_wf(c, st, value, ret);
        },
        ast::Stmt::Assign { place, value } => {
            lemma_tc_expr_wf(c, st, value, ret);
            let (s1, _, _) = tc_expr(c, st, value, ret)->Some_0;
            lemma_tc_expr_wf(c, s1, place, ret);
        },
        ast::Stmt::Return { value } => {
            if let Some(v) = value {
                lemma_tc_expr_wf(c, st, v, ret);
            }
        },
        ast::Stmt::Loop { body } => {
            lemma_tc_block_wf(c, st, *body.value, ret);
        },
        ast::Stmt::Break { .. } => {},
        ast::Stmt::Continue => {},
        ast::Stmt::If { cond, then_block, else_block } => {
            lemma_tc_expr_wf(c, st, cond, ret);
            let (s1, _, _) = tc_expr(c, st, cond, ret)->Some_0;
            let s2 = super::rules::check_type(s1, tc_expr(c, st, cond, ret)->Some_0.2, super::rules::bool_ty(), cond.span).0;
            lemma_tc_block_wf(c, s2, *then_block.value, ret);
            let (s3, hthen, _) = tc_block(c, s2, *then_block.value, ret)->Some_0;
            if let Some(b) = else_block {
                let tty = tc_block(c, s2, *then_block.value, ret)->Some_0.2;
                let s4 = super::rules::check_type(s3, tty, TyView::Unit, then_block.span).0;
                lemma_tc_block_wf(c, s4, *b.value, ret);
                let (s5, _, _) = tc_block(c, s4, *b.value, ret)->Some_0;
                lemma_block_mono(hthen, s3.exprs.len() as int, s5.exprs.len() as int);
            }
        },
    }
}

proof fn lemma_tc_args(c: TcCtx, st: TcState, args: Seq<(Ident, ast::RType)>)
    ensures
        tc_args(c, st, args) matches Some(s) ==> s.exprs == st.exprs,
    decreases args.len(),
{
    if args.len() > 0 {
        lemma_tc_args(c, st, args.drop_last());
    }
}

/// Checking the functions of a program keeps the arena well formed, and
/// every body it yields refers only to expressions of the arena.
pub proof fn law_checked_items_wf(c: TcCtx, st: TcState, items: Seq<ast::Item>)
    requires
        tc_items(c, st, items) is Some,
        arena_wf(st.exprs),
    ensures
        ({
            let (s, fns) = tc_items(c, st, items)->Some_0;
            module_wf(ModuleView { functions: fns, exprs: s.exprs })
        }),
    decreases items.len(),
{
    if items.len() > 0 {
        law_checked_items_wf(c, st, items.drop_last());
        let (s1, fns) = tc_items(c, st, items.drop_last())->Some_0;
        if let ast::Item::Function(func) = items.last() {
            let id = c.res.fns[func.id.node()];
            let f = *func.value;
            lemma_tc_args(c, s1, f.args@);
            let a = tc_args(c, s1, f.args@)->Some_0;
            let expected = c.defs.func(id).ret;
            lemma_tc_block_wf(c, a, *f.body.value, expected);
            let (s2, hb, _) = tc_block(c, a, *f.body.value, expected)->Some_0;
            let (s3, fns2) = tc_items(c, st, items)->Some_0;
            assert(tc_function(c, s1, f, id) is Some);
            assert forall|g| #[trigger] fns2.contains_key(g) implies block_below(fns2[g], s3.exprs.len() as int) by {
                if g != id {
                    let m = ModuleView { functions: fns, exprs: s1.exprs };
                    assert(module_wf(m));
                    assert(m.functions.contains_key(g) && fns2[g] == fns[g]);
                    lemma_block_mono(fns[g], s1.exprs.len() as int, s3.exprs.len() as int);
                }
            }
        }
    }
}

// ---- what the single checks yield ------------------------------------------
/// The type of a block is that of its tail expression, checked after its
/// statements, unless a statement diverges; a block without statements and
/// with a tail has the type of the tail; a block without a tail has type
/// `Unit` or, where a statement diverges, `Never`.
pub proof fn law_block_type(c: TcCtx, st: TcState, b: ast::Block, ret: TyView)
    requires
        tc_block(c, st, b, ret) is Some,
    ensures
        ({
            let (s1, _, div) = tc_stmts(c, st, b.stmts@, ret)->Some_0;
            let ty = tc_block(c, st, b, ret)->Some_0.2;
            &&& tc_stmts(c, st, b.stmts@, ret) is Some
            &&& b.tail matches Some(t) ==> tc_expr(c, s1, t, ret) is Some && (!div ==> ty == tc_expr(c, s1, t, ret)->Some_0.2)
            &&& (b.stmts@.len() == 0 && b.tail is Some) ==> ty == tc_expr(c, st, b.tail->Some_0, ret)->Some_0.2
            &&& b.tail is None ==> ty == (if div { TyView::Never } else { TyView::Unit })
            &&& div ==> ty is Never
        }),
{
}

/// A field access on a struct finds the first field of that name: its index
/// is the position of that field and its type is the declared type of that
/// field, and nothing is reported.
pub proof fn law_field_found(c: TcCtx, st: TcState, id: TyId, fields: Seq<(Symbol, TyView)>, field: Ident, p: int)
    requires
        c.defs.ty_defined(id),
        c.defs.ty(id) == (TyDefView::Struct { fields }),
        0 <= p < fields.len(),
        fields[p].0 == field.value,
        forall|q: int| 0 <= q < p ==> fields[q].0 != field.value,
    ensures
        check_field(c, st, TyView::Custom(id), field) == Some((st, p as usize, fields[p].1)),
{
    let keys = field_names(fields);
    assert(keys[p] == field.value);
    lemma_first_pos(keys, field.value);
    assert(keys.contains(field.value));
    let fp = first_pos(keys, field.value);
    if fp < p {
        assert(keys[fp] == fields[fp].0);
    }
    if fp > p {
        assert(keys[p] != field.value);
    }
    assert(fp == p);
    assert(check_field_fuel(c, st, TyView::Custom(id), field, 1) is Some);
    let f = field_fuel(c, st, TyView::Custom(id), field);
    assert(check_field_fuel(c, st, TyView::Custom(id), field, f) is Some);
}

/// The error reported for a field that the type of `id` lacks.
pub open spec fn unknown_field(id: TyId, field: Ident) -> TypeErrorView {
    TypeErrorView::UnknownField { ty: TyView::Custom(id), field: field.span }
}

/// A field access on a struct without a field of that name reports the
/// field, and yields the number of fields as its index and type `Unknown`.
pub proof fn law_field_missing(c: TcCtx, st: TcState, id: TyId, fields: Seq<(Symbol, TyView)>, field: Ident)
    requires
        c.defs.ty_defined(id),
        c.defs.ty(id) == (TyDefView::Struct { fields }),
        forall|q: int| 0 <= q < fields.len() ==> fields[q].0 != field.value,
    ensures
        check_field(c, st, TyView::Custom(id), field) == Some(
            (st.emit(unknown_field(id, field)), fields.len() as usize, TyView::Unknown),
        ),
{
    let keys = field_names(fields);
    lemma_first_pos(keys, field.value);
    if keys.contains(field.value) {
        let q = choose|q: int| 0 <= q < keys.len() && keys[q] == field.value;
        assert(keys[q] == fields[q].0);
    }
    assert(check_field_fuel(c, st, TyView::Custom(id), field, 1) is Some);
    let f = field_fuel(c, st, TyView::Custom(id), field);
    assert(check_field_fuel(c, st, TyView::Custom(id), field, f) is Some);
}

/// Operators on two operands of the same type in the operator's class:
/// arithmetic yields that type, comparisons for equality and order yield
/// `bool`, and the logical operators on `bool` yield `bool`; nothing is
/// reported. Operands of the class but of different types are reported as
/// mismatched and yield `Unknown`.
pub proof fn law_binary_types(st: TcState, t: TyView, u: TyView, op: BinOp, span: Span)
    ensures
        ((op == BinOp::Add || op == BinOp::Sub || op == BinOp::Mul || op == BinOp::Div || op == BinOp::Mod)
            && spec_is_numeric(t)) ==> infer_binary(st, t, t, op, span) == (st, t),
        ((op == BinOp::Eq || op == BinOp::Ne) && spec_is_equatable(t)) ==> infer_binary(st, t, t, op, span)
            == (st, bool_ty()),
        ((op == BinOp::Lt || op == BinOp::Le || op == BinOp::Gt || op == BinOp::Ge) && spec_is_ordered(t))
            ==> infer_binary(st, t, t, op, span) == (st, bool_ty()),
        (op == BinOp::And || op == BinOp::Or) ==> infer_binary(st, bool_ty(), bool_ty(), op, span) == (
            st,
            bool_ty(),
        ),
        ((op == BinOp::Eq || op == BinOp::Ne) && spec_is_equatable(t) && spec_is_equatable(u) && t != u)
            ==> infer_binary(st, t, u, op, span) == (st.emit(mismatch_error(span, op, t, u)), TyView::Unknown),
{
}

/// The error reported for operands of an operator's class of different
/// types.
pub open spec fn mismatch_error(span: Span, op: BinOp, lhs: TyView, rhs: TyView) -> TypeErrorView {
    TypeErrorView::MismatchedBinaryOperands { span, op, lhs, rhs }
}

/// `bool`.
pub open spec fn bool_ty() -> TyView {
    TyView::Builtin(BuiltinTy::Bool)
}

/// The error reported for the argument at position `i` of a call.
pub open spec fn arg_error(span: Span, args: Seq<TyView>, params: Seq<TyView>, i: int) -> TypeErrorView {
    TypeErrorView::ArgumentTypeMismatch { call: span, index: i as usize, found: args[i], expected: params[i] }
}

/// `e` is among the errors that `after` has beyond `before`.
pub open spec fn reported(before: Seq<TypeErrorView>, after: Seq<TypeErrorView>, e: TypeErrorView) -> bool {
    exists|j: int| before.len() <= j < after.len() && #[trigger] after[j] == e
}

proof fn lemma_arg_mismatch_reported(
    st: TcState,
    args: Seq<TyView>,
    params: Seq<TyView>,
    span: Span,
    n: nat,
    i: int,
)
    requires
        0 <= i < n,
        n <= args.len(),
        n <= params.len(),
        n <= usize::MAX,
        !spec_fits(args[i], params[i]),
    ensures
        reported(st.diags, arg_mismatches(st, args, params, span, n).diags, arg_error(span, args, params, i)),
    decreases n,
{
    let s = arg_mismatches(st, args, params, span, (n - 1) as nat);
    lemma_arg_mismatches_grow(st, args, params, span, (n - 1) as nat);
    let r = arg_mismatches(st, args, params, span, n);
    let e = arg_error(span, args, params, i);
    if i == n - 1 {
        assert(r.diags[s.diags.len() as int] == e);
    } else {
        lemma_arg_mismatch_reported(st, args, params, span, (n - 1) as nat, i);
        let j = choose|j: int| st.diags.len() <= j < s.diags.len() && #[trigger] s.diags[j] == e;
        assert(r.diags[j] == e);
    }
}

proof fn lemma_arg_mismatches_grow(st: TcState, args: Seq<TyView>, params: Seq<TyView>, span: Span, n: nat)
    ensures
        st.diags.len() <= arg_mismatches(st, args, params, span, n).diags.len(),
        forall|j: int| 0 <= j < st.diags.len() ==> #[trigger] arg_mismatches(st, args, params, span, n).diags[j] == st.diags[j],
        (forall|i: int| 0 <= i < n ==> spec_fits(#[trigger] args[i], params[i])) ==> arg_mismatches(st, args, params, span, n) == st,
    decreases n,
{
    if n > 0 {
        lemma_arg_mismatches_grow(st, args, params, span, (n - 1) as nat);
        if forall|i: int| 0 <= i < n ==> spec_fits(#[trigger] args[i], params[i]) {
            assert(spec_fits(args[n - 1], params[n - 1]));
        }
    }
}

/// Calling a function: an argument whose type does not fit the parameter at
/// its position is reported with that position, its type and the parameter's
/// type; where every argument fits and their number is that of the
/// parameters, nothing is reported and the call has the return type.
pub proof fn law_call_arguments(st: TcState, ret: TyView, params: Seq<TyView>, args: Seq<TyView>, span: Span, i: int)
    requires
        args.len() <= usize::MAX,
    ensures
        (0 <= i < args.len() && i < params.len() && !spec_fits(args[i], params[i])) ==> reported(
            st.diags,
            check_call(st, TyView::Fn(Box::new(ret), params), args, span).0.diags,
            arg_error(span, args, params, i),
        ),
        (args.len() == params.len() && (forall|k: int| 0 <= k < args.len() ==> spec_fits(#[trigger] args[k], params[k])))
            ==> check_call(st, TyView::Fn(Box::new(ret), params), args, span) == (st, ret),
{
    let n = if args.len() < params.len() {
        args.len()
    } else {
        params.len()
    };
    lemma_arg_mismatches_grow(st, args, params, span, n);
    let f = TyView::Fn(Box::new(ret), params);
    let s = arg_mismatches(st, args, params, span, n);
    if 0 <= i < args.len() && i < params.len() && !spec_fits(args[i], params[i]) {
        lemma_arg_mismatch_reported(st, args, params, span, n, i);
        let e = arg_error(span, args, params, i);
        let j = choose|j: int| st.diags.len() <= j < s.diags.len() && #[trigger] s.diags[j] == e;
        if params.len() != args.len() {
            let r = check_call(st, f, args, span).0;
            assert(r.diags == s.diags.push(TypeErrorView::ArgumentCountMismatch { call: span, func: f, count: args.len() as usize }));
            assert(r.diags[j] == e);
        } else {
            assert(check_call(st, f, args, span).0.diags[j] == e);
        }
    }
}

/// Checking that a type fits another: where it fits nothing is reported and
/// the result is the expected type when the found one is `Never` or
/// `Unknown`, else the found one; where it does not fit the mismatch is
/// reported with both types and the result is `Unknown`.
pub proof fn law_check_type(st: TcState, found: TyView, expected: TyView, span: Span)
    ensures
        (spec_fits(found, expected) && (found is Never || found is Unknown)) ==> check_type(st, found, expected, span) == (st, expected),
        (spec_fits(found, expected) && !(found is Never || found is Unknown)) ==> check_type(st, found, expected, span) == (st, found),
        !spec_fits(found, expected) ==> check_type(st, found, expected, span) == (
            st.emit(type_mismatch(span, found, expected)),
            TyView::Unknown,
        ),
{
}

/// The error reported for a type that does not fit.
pub open spec fn type_mismatch(span: Span, found: TyView, expected: TyView) -> TypeErrorView {
    TypeErrorView::TypeMismatch { span, found, expected }
}

/// `!` keeps a `bool` or an integer, `-` keeps a signed integer or a float,
/// and nothing is reported; on an operand of another type (neither `Never`
/// nor `Unknown`) the operator is reported and the result is `Unknown`.
pub proof fn law_unary_types(st: TcState, t: TyView, op: UnOp, span: Span)
    ensures
        (op == UnOp::Not && (t == bool_ty() || spec_is_integer(t))) ==> infer_unary(st, t, op, span) == (st, t),
        (op == UnOp::Neg && (spec_is_signed_integer(t) || spec_is_float(t))) ==> infer_unary(st, t, op, span) == (st, t),
        (op == UnOp::Not && t != bool_ty() && !spec_is_integer(t) && !(t is Never) && !(t is Unknown)) ==> infer_unary(st, t, op, span)
            == (st.emit(TypeErrorView::InvalidUnaryOperand { span, op, ty: t }), TyView::Unknown),
        (op == UnOp::Neg && !spec_is_signed_integer(t) && !spec_is_float(t) && !(t is Never) && !(t is Unknown))
            ==> infer_unary(st, t, op, span) == (st.emit(TypeErrorView::InvalidUnaryOperand { span, op, ty: t }), TyView::Unknown),
{
}

/// Dereferencing a pointer yields its pointee; dereferencing a type that is
/// no pointer (neither `Never` nor `Unknown`) is reported and yields
/// `Unknown`.
pub proof fn law_deref(st: TcState, t: TyView, span: Span)
    ensures
        check_deref(st, TyView::Pointer(Box::new(t)), span) == (st, t),
        (!(t is Pointer) && !(t is Never) && !(t is Unknown)) ==> check_deref(st, t, span) == (
            st.emit(TypeErrorView::InvalidDeref { span, ty: t }),
            TyView::Unknown,
        ),
{
}

/// Indexing a pointer or an array with an unsigned integer yields its
/// element type and reports nothing; an index of another type is reported
/// but the element type is kept; indexing a value that is no pointer or
/// array (and not `Never`) is reported and yields `Unknown`.
pub proof fn law_index(st: TcState, elem: TyView, index: TyView, span: Span)
    ensures
        (index == TyView::Builtin(BuiltinTy::U8) || index == TyView::Builtin(BuiltinTy::U16) || index
            == TyView::Builtin(BuiltinTy::U32) || index == TyView::Builtin(BuiltinTy::U64)) ==> {
            &&& check_index(st, TyView::Array(Box::new(elem)), index, span) == (st, elem)
            &&& check_index(st, TyView::Pointer(Box::new(elem)), index, span) == (st, elem)
        },
        (!(index is Never) && !(elem is Never) && !(index is Unknown) && index != TyView::Builtin(BuiltinTy::U8)
            && index != TyView::Builtin(BuiltinTy::U16) && index != TyView::Builtin(BuiltinTy::U32) && index
            != TyView::Builtin(BuiltinTy::U64)) ==> check_index(st, TyView::Array(Box::new(elem)), index, span) == (
            st.emit(TypeErrorView::InvalidIndexType { ty: TyView::Array(Box::new(elem)), span, index_ty: index }),
            elem,
        ),
        (!(elem is Pointer) && !(elem is Array) && !(elem is Never) && !(index is Never)) ==> check_index(st, elem, index, span) == (
            st.emit(TypeErrorView::NonIndexableType { span, ty: elem }),
            TyView::Unknown,
        ),
{
}

/// Calling what is not a function (neither a pointer to one, nor `Never`)
/// is reported and yields `Unknown`; calling through a pointer is calling
/// what it points to; calling `Never` yields `Never`; calling a function with a number of
/// arguments other than its number of parameters reports that number and
/// yields the return type.
pub proof fn law_call_shape(st: TcState, f: TyView, ret: TyView, params: Seq<TyView>, args: Seq<TyView>, span: Span)
    requires
        args.len() <= usize::MAX,
    ensures
        (!(f is Pointer) && !(f is Never) && !(f is Fn)) ==> check_call(st, f, args, span) == (
            st.emit(TypeErrorView::NotCallable { span, ty: f }),
            TyView::Unknown,
        ),
        check_call(st, TyView::Fn(Box::new(ret), params), args, span).1 == ret,
        check_call(st, TyView::Pointer(Box::new(f)), args, span) == check_call(st, f, args, span),
        check_call(st, TyView::Never, args, span) == (st, TyView::Never),
        args.len() != params.len() ==> check_call(st, TyView::Fn(Box::new(ret), params), args, span).0.diags.last()
            == (TypeErrorView::ArgumentCountMismatch {
            call: span,
            func: TyView::Fn(Box::new(ret), params),
            count: args.len() as usize,
        }),
{
}

/// The type of an expression: a literal has the type of its kind, a
/// variable the type its binding has, a grouping the type of what it
/// groups, a reference a pointer to its operand's type (unless that is
/// `Never`), and an operator, a dereference, an index, a call or a field
/// access the type that its rule gives for its operands' types.
pub proof fn law_expr_types(c: TcCtx, st: TcState, e: ast::RExpr, ret: TyView)
    requires
        tc_expr(c, st, e, ret) is Some,
    ensures
        ({
            let ty = tc_expr(c, st, e, ret)->Some_0.2;
            &&& (*e.value matches ast::Expr::Literal(Literal::Int(_))) ==> ty == TyView::Builtin(BuiltinTy::I32)
            &&& (*e.value matches ast::Expr::Literal(Literal::Bool(_))) ==> ty == bool_ty()
            &&& (*e.value matches ast::Expr::Literal(Literal::Char(_))) ==> ty == TyView::Builtin(BuiltinTy::Char)
            &&& (*e.value matches ast::Expr::Literal(Literal::String(_))) ==> ty == TyView::Builtin(BuiltinTy::String)
            &&& (*e.value matches ast::Expr::Literal(Literal::Float(_))) ==> ty == TyView::Builtin(BuiltinTy::F32)
            &&& (*e.value is Variable && c.res.vars[(*e.value)->Variable_0.id.node()] is Left) ==> ty == st.env[c.res.vars[(*e.value)->Variable_0.id.node()]->Left_0]
            &&& (*e.value is Variable && c.res.vars[(*e.value)->Variable_0.id.node()] is Right) ==> ty == c.defs.func(c.res.vars[(*e.value)->Variable_0.id.node()]->Right_0).signature()
            &&& (*e.value is Grouping) ==> ty == tc_expr(c, st, (*e.value)->Grouping_0, ret)->Some_0.2
            &&& (*e.value is Ref) ==> {
                let inner = tc_expr(c, st, (*e.value)->Ref_0, ret)->Some_0.2;
                ty == (if inner is Never { TyView::Never } else { TyView::Pointer(Box::new(inner)) })
            }
            &&& (*e.value is Binary) ==> {
                let (s1, _, lt) = tc_expr(c, st, (*e.value)->Binary_lhs, ret)->Some_0;
                let (s2, _, rt) = tc_expr(c, s1, (*e.value)->Binary_rhs, ret)->Some_0;
                ty == infer_binary(s2, lt, rt, (*e.value)->Binary_op, e.span).1
            }
            &&& (*e.value is Unary) ==> {
                let (s1, _, t) = tc_expr(c, st, (*e.value)->Unary_rhs, ret)->Some_0;
                ty == infer_unary(s1, t, (*e.value)->Unary_op, e.span).1
            }
            &&& (*e.value is Block) ==> ty == tc_block(c, st, *(*e.value)->Block_0.value, ret)->Some_0.2
            &&& (*e.value is Deref) ==> {
                let (s1, _, t) = tc_expr(c, st, (*e.value)->Deref_0, ret)->Some_0;
                ty == check_deref(s1, t, e.span).1
            }
            &&& (*e.value is Index) ==> {
                let (s1, _, lt) = tc_expr(c, st, (*e.value)->Index_lhs, ret)->Some_0;
                let (s2, _, it) = tc_expr(c, s1, (*e.value)->Index_index, ret)->Some_0;
                ty == check_index(s2, lt, it, e.span).1
            }
            &&& (*e.value is Call) ==> {
                let (s1, _, ft) = tc_expr(c, st, (*e.value)->Call_lhs, ret)->Some_0;
                let (s2, _, tys) = tc_exprs(c, s1, (*e.value)->Call_args@, ret)->Some_0;
                ty == check_call(s2, ft, tys, e.span).1
            }
            &&& (*e.value is Field) ==> {
                let (s1, _, lt) = tc_expr(c, st, (*e.value)->Field_lhs, ret)->Some_0;
                ty == check_field(c, s1, lt, (*e.value)->Field_name)->Some_0.2
            }
        }),
{
}

/// A `let` binds its variable to the type of its value, or, with a type
/// written, to what checking the value against that type yields; a
/// `return` or a `continue` never falls through.
pub proof fn law_let_binds(c: TcCtx, st: TcState, s: ast::Stmt, ret: TyView)
    requires
        tc_stmt(c, st, s, ret) is Some,
    ensures
        ({
            let (s2, _, ty) = tc_stmt(c, st, s, ret)->Some_0;
            &&& (s is Let && s->ty is None) ==> {
                let v = c.res.vars[s->name.id.node()]->Left_0;
                let (_, _, inferred) = tc_expr(c, st, s->Let_value, ret)->Some_0;
                s2.env[v] == inferred && s2.env.contains_key(v)
            }
            &&& (s is Let && s->ty is Some) ==> {
                let v = c.res.vars[s->name.id.node()]->Left_0;
                let (s1, _, inferred) = tc_expr(c, st, s->Let_value, ret)->Some_0;
                let t = s->ty->Some_0;
                s2.env[v] == check_type(s1, inferred, c.res.tys[t.id.node()], s->Let_value.span).1
            }
            &&& (s is Return || s is Continue) ==> ty is Never
        }),
{
}

/// Whether control falls through a statement (`Unit`) or not (`Never`): a
/// `break`, `continue` or `return` never does; a loop does only if its body
/// holds a `break` that targets it; an expression statement does unless the
/// expression diverges; an `if` does not if its condition diverges, and
/// otherwise does when it has no `else`.
pub proof fn law_stmt_falls(c: TcCtx, st: TcState, s: ast::Stmt, ret: TyView)
    requires
        tc_stmt(c, st, s, ret) is Some,
    ensures
        ({
            let ty = tc_stmt(c, st, s, ret)->Some_0.2;
            &&& (s is Break || s is Continue || s is Return) ==> ty is Never
            &&& (s is Loop) ==> ty == (if spec_block_breaks(*s->Loop_body.value) {
                TyView::Unit
            } else {
                TyView::Never
            })
            &&& (s is Expr) ==> ty == (if tc_expr(c, st, s->Expr_0, ret)->Some_0.2 is Never {
                TyView::Never
            } else {
                TyView::Unit
            })
            &&& (s is If && tc_expr(c, st, s->cond, ret)->Some_0.2 is Never) ==> ty is Never
            &&& (s is If && !(tc_expr(c, st, s->cond, ret)->Some_0.2 is Never) && s->else_block is None) ==> ty is Unit
            &&& (s is Let) ==> ty == (if tc_expr(c, st, s->Let_value, ret)->Some_0.2 is Never {
                TyView::Never
            } else {
                TyView::Unit
            })
        }),
{
}

proof fn lemma_stmts_break_exists(ss: Seq<ast::RStmt>)
    ensures
        spec_stmts_break(ss) <==> exists|i: int| 0 <= i < ss.len() && spec_stmt_breaks(*(#[trigger] ss[i]).value),
    decreases ss.len(),
{
    if ss.len() > 0 {
        lemma_stmts_break_exists(ss.drop_last());
        if exists|i: int| 0 <= i < ss.drop_last().len() && spec_stmt_breaks(*(#[trigger] ss.drop_last()[i]).value) {
            let i = choose|i: int| 0 <= i < ss.drop_last().len() && spec_stmt_breaks(*(#[trigger] ss.drop_last()[i]).value);
            assert(ss[i] == ss.drop_last()[i]);
        }
        if exists|i: int| 0 <= i < ss.len() && spec_stmt_breaks(*(#[trigger] ss[i]).value) {
            let i = choose|i: int| 0 <= i < ss.len() && spec_stmt_breaks(*(#[trigger] ss[i]).value);
            if i < ss.len() - 1 {
                assert(ss.drop_last()[i] == ss[i]);
            }
        }
    }
}

/// A loop body breaks out of its loop when one of its statements, or its
/// tail, holds a `break` outside any nested loop: a `break` itself does, a
/// nested loop does not, and an `if` does when its condition or a branch
/// does.
pub proof fn law_breaks(b: ast::Block, s: ast::Stmt)
    ensures
        spec_block_breaks(b) <==> ((exists|i: int| 0 <= i < b.stmts@.len() && spec_stmt_breaks(*(#[trigger] b.stmts@[i]).value))
            || (b.tail is Some && spec_expr_breaks(b.tail->Some_0))),
        (s is Break) ==> spec_stmt_breaks(s),
        (s is Loop) ==> !spec_stmt_breaks(s),
        (s is Continue) ==> !spec_stmt_breaks(s),
        (s is If) ==> (spec_stmt_breaks(s) <==> (spec_expr_breaks(s->cond) || spec_block_breaks(*s->then_block.value)
            || (s->else_block is Some && spec_block_breaks(*s->else_block->Some_0.value)))),
{
    lemma_stmts_break_exists(b.stmts@);
}

proof fn lemma_fuel_agree(c: TcCtx, st: TcState, ty: TyView, field: Ident, f1: nat, f2: nat)
    requires
        check_field_fuel(c, st, ty, field, f1) is Some,
        check_field_fuel(c, st, ty, field, f2) is Some,
    ensures
        check_field_fuel(c, st, ty, field, f1) == check_field_fuel(c, st, ty, field, f2),
    decreases f1,
{
    match ty {
        TyView::Pointer(t) => lemma_fuel_agree(c, st, *t, field, (f1 - 1) as nat, (f2 - 1) as nat),
        TyView::Custom(id) => {
            if let TyDefView::Alias(t) = c.defs.ty(id) {
                lemma_fuel_agree(c, st, t, field, (f1 - 1) as nat, (f2 - 1) as nat);
            }
        },
        _ => {},
    }
}

/// A field access through a pointer, or on an alias, is the field access on
/// what the pointer points to, or on what the alias names; one on `Never`
/// yields `Never`.
pub proof fn law_field_through(c: TcCtx, st: TcState, t: TyView, field: Ident, id: TyId)
    ensures
        check_field(c, st, TyView::Pointer(Box::new(t)), field) == check_field(c, st, t, field),
        (c.defs.ty_defined(id) && c.defs.ty(id) == TyDefView::Alias(t)) ==> check_field(c, st, TyView::Custom(id), field)
            == check_field(c, st, t, field),
        check_field(c, st, TyView::Never, field) == Some((st, 0usize, TyView::Never)),
{
    let p = TyView::Pointer(Box::new(t));
    if exists|f: nat| check_field_fuel(c, st, t, field, f) is Some {
        let f = choose|f: nat| check_field_fuel(c, st, t, field, f) is Some;
        assert(check_field_fuel(c, st, p, field, f + 1) == check_field_fuel(c, st, t, field, f));
        let fp = field_fuel(c, st, p, field);
        let ft = field_fuel(c, st, t, field);
        assert(check_field_fuel(c, st, p, field, fp) == check_field_fuel(c, st, t, field, (fp - 1) as nat));
        lemma_fuel_agree(c, st, t, field, (fp - 1) as nat, ft);
    } else {
        assert forall|f: nat| !(check_field_fuel(c, st, p, field, f) is Some) by {
            if f > 0 {
                assert(check_field_fuel(c, st, p, field, f) == check_field_fuel(c, st, t, field, (f - 1) as nat));
            }
        }
    }
    let a = TyView::Custom(id);
    if c.defs.ty_defined(id) && c.defs.ty(id) == TyDefView::Alias(t) {
        if exists|f: nat| check_field_fuel(c, st, t, field, f) is Some {
            let f = choose|f: nat| check_field_fuel(c, st, t, field, f) is Some;
            assert(check_field_fuel(c, st, a, field, f + 1) == check_field_fuel(c, st, t, field, f));
            let fa = field_fuel(c, st, a, field);
            let ft = field_fuel(c, st, t, field);
            assert(check_field_fuel(c, st, a, field, fa) == check_field_fuel(c, st, t, field, (fa - 1) as nat));
            lemma_fuel_agree(c, st, t, field, (fa - 1) as nat, ft);
        } else {
            assert forall|f: nat| !(check_field_fuel(c, st, a, field, f) is Some) by {
                if f > 0 {
                    assert(check_field_fuel(c, st, a, field, f) == check_field_fuel(c, st, t, field, (f - 1) as nat));
                }
            }
        }
    }
    assert(check_field_fuel(c, st, TyView::Never, field, 1) is Some);
    let fnv = field_fuel(c, st, TyView::Never, field);
    assert(check_field_fuel(c, st, TyView::Never, field, fnv) is Some);
}

} // verus!
