//! The typing rules: what checking a piece of the syntax tree yields, given
//! the resolutions and definitions of name resolution and the state so far.
use vstd::prelude::*;

use crate::semantic::ast::{self, first_pos, BinOp, Ident, Symbol, UnOp};
use crate::semantic::nameres::{
    BuiltinTy, DefsView, FnId, ResolutionsView, TyDefView, TyView, VarId,
};
use crate::semantic::node::Span;
use crate::semantic::parser::token::Literal;
use crate::semantic::parser::tree::Either;

use super::hir::{BlockView, ExprId, ExprView, LiteralView, StmtView};

verus! {

/// The mathematical value of a type error.
pub enum TypeErrorView {
    UnknownField { ty: TyView, field: Span },
    ArgumentCountMismatch { call: Span, func: TyView, count: usize },
    NonIndexableType { span: Span, ty: TyView },
    InvalidIndexType { ty: TyView, span: Span, index_ty: TyView },
    InvalidDeref { span: Span, ty: TyView },
    InvalidUnaryOperand { span: Span, op: UnOp, ty: TyView },
    InvalidBinaryOperands { span: Span, op: BinOp, lhs: TyView, rhs: TyView },
    MismatchedBinaryOperands { span: Span, op: BinOp, lhs: TyView, rhs: TyView },
    TypeMismatch { span: Span, found: TyView, expected: TyView },
    ArgumentTypeMismatch { call: Span, index: usize, found: TyView, expected: TyView },
    NotCallable { span: Span, ty: TyView },
}

/// What the checker reads: the results of name resolution.
pub struct TcCtx {
    pub res: ResolutionsView,
    pub defs: DefsView,
}

/// What the checker builds: the type of each variable, the errors found so
/// far, and the expressions of the hir so far.
pub struct TcState {
    pub env: Map<VarId, TyView>,
    pub diags: Seq<TypeErrorView>,
    pub exprs: Seq<ExprView>,
}

impl TcState {
    pub open spec fn emit(self, e: TypeErrorView) -> TcState {
        TcState { diags: self.diags.push(e), ..self }
    }

    /// Appends an expression to the arena; its id is its position.
    pub open spec fn push(self, e: ExprView) -> (TcState, ExprId) {
        (TcState { exprs: self.exprs.push(e), ..self }, ExprId(self.exprs.len() as usize))
    }

    pub open spec fn bind(self, v: VarId, t: TyView) -> TcState {
        TcState { env: self.env.insert(v, t), ..self }
    }
}

// ---- classes of types ------------------------------------------------------
pub open spec fn spec_is_integer(t: TyView) -> bool {
    match t {
        TyView::Builtin(b) => matches!(b, BuiltinTy::I8 | BuiltinTy::I16 | BuiltinTy::I32 | BuiltinTy::I64 | BuiltinTy::U8 | BuiltinTy::U16 | BuiltinTy::U32 | BuiltinTy::U64),
        _ => false,
    }
}

pub open spec fn spec_is_signed_integer(t: TyView) -> bool {
    match t {
        TyView::Builtin(b) => matches!(b, BuiltinTy::I8 | BuiltinTy::I16 | BuiltinTy::I32 | BuiltinTy::I64),
        _ => false,
    }
}

pub open spec fn spec_is_float(t: TyView) -> bool {
    t == TyView::Builtin(BuiltinTy::F32) || t == TyView::Builtin(BuiltinTy::F64)
}

pub open spec fn spec_is_numeric(t: TyView) -> bool {
    spec_is_integer(t) || spec_is_float(t)
}

pub open spec fn spec_is_equatable(t: TyView) -> bool {
    t is Builtin || t is Pointer || t is Unit
}

pub open spec fn spec_is_ordered(t: TyView) -> bool {
    spec_is_numeric(t) || t == TyView::Builtin(BuiltinTy::Char) || t == TyView::Builtin(
        BuiltinTy::String,
    )
}

/// Whether a value of type `found` may stand where `expected` is expected:
/// `Never` fits anything, and `Unknown` on either side fits.
pub open spec fn spec_fits(found: TyView, expected: TyView) -> bool {
    found is Never || found is Unknown || expected is Unknown || found == expected
}

/// The classes of types nest: a signed integer is an integer, integers and
/// floats are numeric and no type is both, a numeric type is ordered, and an
/// ordered type can be compared for equality.
pub proof fn law_type_classes(t: TyView)
    ensures
        spec_is_signed_integer(t) ==> spec_is_integer(t),
        spec_is_integer(t) ==> spec_is_numeric(t),
        spec_is_float(t) ==> spec_is_numeric(t),
        !(spec_is_integer(t) && spec_is_float(t)),
        spec_is_numeric(t) ==> spec_is_ordered(t),
        spec_is_ordered(t) ==> spec_is_equatable(t),
{
}

/// A type fits where the same type is expected; `Never` fits where anything
/// is expected; `Unknown` fits everywhere and everything fits where it is
/// expected, so that an error already reported does not cascade.
pub proof fn law_fits(t: TyView, u: TyView)
    ensures
        spec_fits(t, t),
        spec_fits(TyView::Never, u),
        spec_fits(TyView::Unknown, u),
        spec_fits(t, TyView::Unknown),
{
}

pub open spec fn bool_ty() -> TyView {
    TyView::Builtin(BuiltinTy::Bool)
}

// ---- single checks ---------------------------------------------------------
/// Checks that `found` fits `expected`; on a mismatch reports it and yields
/// `Unknown`, else yields the established side.
pub open spec fn check_type(st: TcState, found: TyView, expected: TyView, span: Span) -> (TcState, TyView) {
    if !spec_fits(found, expected) {
        (st.emit(TypeErrorView::TypeMismatch { span, found, expected }), TyView::Unknown)
    } else if found is Never || found is Unknown {
        (st, expected)
    } else {
        (st, found)
    }
}

pub open spec fn check_literal(l: Literal) -> (LiteralView, TyView) {
    match l {
        Literal::Int(i) => (LiteralView::Int(i), TyView::Builtin(BuiltinTy::I32)),
        Literal::Float(f) => (LiteralView::Float(f), TyView::Builtin(BuiltinTy::F32)),
        Literal::Bool(b) => (LiteralView::Bool(b), TyView::Builtin(BuiltinTy::Bool)),
        Literal::String(s) => (LiteralView::String(s@), TyView::Builtin(BuiltinTy::String)),
        Literal::Char(c) => (LiteralView::Char(c), TyView::Builtin(BuiltinTy::Char)),
    }
}

pub open spec fn infer_unary(st: TcState, ty: TyView, op: UnOp, span: Span) -> (TcState, TyView) {
    if op == UnOp::Not && (ty == bool_ty() || spec_is_integer(ty)) {
        (st, ty)
    } else if op == UnOp::Neg && (spec_is_signed_integer(ty) || spec_is_float(ty)) {
        (st, ty)
    } else if ty is Never {
        (st, TyView::Never)
    } else if ty is Unknown {
        (st, TyView::Unknown)
    } else {
        (st.emit(TypeErrorView::InvalidUnaryOperand { span, op, ty }), TyView::Unknown)
    }
}

/// The operand check of a binary operator: both operands must be in `class`
/// and equal, in which case the result type is `ok`.
pub open spec fn binary_class(
    st: TcState,
    lhs: TyView,
    rhs: TyView,
    op: BinOp,
    span: Span,
    lhs_in: bool,
    rhs_in: bool,
    ok: TyView,
) -> (TcState, TyView) {
    if !lhs_in || !rhs_in {
        (st.emit(TypeErrorView::InvalidBinaryOperands { span, op, lhs, rhs }), TyView::Unknown)
    } else if lhs != rhs {
        (st.emit(TypeErrorView::MismatchedBinaryOperands { span, op, lhs, rhs }), TyView::Unknown)
    } else {
        (st, ok)
    }
}

pub open spec fn infer_binary(st: TcState, lhs: TyView, rhs: TyView, op: BinOp, span: Span) -> (TcState, TyView) {
    if lhs is Never || rhs is Never {
        (st, TyView::Never)
    } else if lhs is Unknown || rhs is Unknown {
        (st, TyView::Unknown)
    } else {
        match op {
            BinOp::Add | BinOp::Sub | BinOp::Mul | BinOp::Div | BinOp::Mod => binary_class(
                st,
                lhs,
                rhs,
                op,
                span,
                spec_is_numeric(lhs),
                spec_is_numeric(rhs),
                lhs,
            ),
            BinOp::Eq | BinOp::Ne => binary_class(
                st,
                lhs,
                rhs,
                op,
                span,
                spec_is_equatable(lhs),
                spec_is_equatable(rhs),
                bool_ty(),
            ),
            BinOp::Lt | BinOp::Le | BinOp::Gt | BinOp::Ge => binary_class(
                st,
                lhs,
                rhs,
                op,
                span,
                spec_is_ordered(lhs),
                spec_is_ordered(rhs),
                bool_ty(),
            ),
            BinOp::And | BinOp::Or => if lhs == bool_ty() && rhs == bool_ty() {
                (st, bool_ty())
            } else {
                (st.emit(TypeErrorView::InvalidBinaryOperands { span, op, lhs, rhs }), TyView::Unknown)
            },
        }
    }
}

pub open spec fn check_deref(st: TcState, ty: TyView, span: Span) -> (TcState, TyView) {
    match ty {
        TyView::Pointer(t) => (st, *t),
        TyView::Never => (st, TyView::Never),
        TyView::Unknown => (st, TyView::Unknown),
        _ => (st.emit(TypeErrorView::InvalidDeref { span, ty }), TyView::Unknown),
    }
}

pub open spec fn is_index_type(t: TyView) -> bool {
    t == TyView::Builtin(BuiltinTy::U8) || t == TyView::Builtin(BuiltinTy::U16) || t == TyView::Builtin(
        BuiltinTy::U32,
    ) || t == TyView::Builtin(BuiltinTy::U64) || t is Unknown
}

pub open spec fn check_index(st: TcState, lhs: TyView, index: TyView, span: Span) -> (TcState, TyView) {
    if lhs is Never || index is Never {
        (st, TyView::Never)
    } else {
        match lhs {
            TyView::Pointer(t) | TyView::Array(t) => if is_index_type(index) {
                (st, *t)
            } else {
                (st.emit(TypeErrorView::InvalidIndexType { ty: lhs, span, index_ty: index }), *t)
            },
            _ => (st.emit(TypeErrorView::NonIndexableType { span, ty: lhs }), TyView::Unknown),
        }
    }
}

/// The argument errors of a call, for the first `n` argument/parameter pairs.
pub open spec fn arg_mismatches(
    st: TcState,
    args: Seq<TyView>,
    params: Seq<TyView>,
    span: Span,
    n: nat,
) -> TcState
    decreases n,
{
    if n == 0 {
        st
    } else {
        let s = arg_mismatches(st, args, params, span, (n - 1) as nat);
        let i = n - 1;
        if !spec_fits(args[i], params[i]) {
            s.emit(
                TypeErrorView::ArgumentTypeMismatch {
                    call: span,
                    index: i as usize,
                    found: args[i],
                    expected: params[i],
                },
            )
        } else {
            s
        }
    }
}

pub open spec fn min_len(a: nat, b: nat) -> nat {
    if a < b {
        a
    } else {
        b
    }
}

pub open spec fn check_call(st: TcState, func: TyView, args: Seq<TyView>, span: Span) -> (TcState, TyView)
    decreases func,
{
    match func {
        TyView::Pointer(t) => check_call(st, *t, args, span),
        TyView::Never => (st, TyView::Never),
        TyView::Fn(ret, params) => {
            let s = arg_mismatches(st, args, params, span, min_len(args.len(), params.len()));
            if params.len() != args.len() {
                (
                    s.emit(
                        TypeErrorView::ArgumentCountMismatch {
                            call: span,
                            func,
                            count: args.len() as usize,
                        },
                    ),
                    *ret,
                )
            } else {
                (s, *ret)
            }
        },
        _ => (st.emit(TypeErrorView::NotCallable { span, ty: func }), TyView::Unknown),
    }
}

pub open spec fn field_names(fields: Seq<(Symbol, TyView)>) -> Seq<Symbol> {
    fields.map_values(|f: (Symbol, TyView)| f.0)
}

/// The field access `.field` on a value of type `ty`, following pointers and
/// aliases at most `fuel` times: the index of the field and its type, or
/// `None` where the chain is longer or reaches an undefined type.
pub open spec fn check_field_fuel(
    c: TcCtx,
    st: TcState,
    ty: TyView,
    field: Ident,
    fuel: nat,
) -> Option<(TcState, usize, TyView)>
    decreases fuel,
{
    if fuel == 0 {
        None
    } else {
        match ty {
            TyView::Pointer(t) => check_field_fuel(c, st, *t, field, (fuel - 1) as nat),
            TyView::Never => Some((st, 0, TyView::Never)),
            TyView::Custom(id) => if !c.defs.ty_defined(id) {
                None
            } else {
                match c.defs.ty(id) {
                    TyDefView::Struct { fields } => {
                        let p = first_pos(field_names(fields), field.value);
                        if p >= 0 {
                            Some((st, p as usize, fields[p].1))
                        } else {
                            Some(
                                (
                                    st.emit(TypeErrorView::UnknownField { ty, field: field.span }),
                                    fields.len() as usize,
                                    TyView::Unknown,
                                ),
                            )
                        }
                    },
                    TyDefView::Alias(t) => check_field_fuel(c, st, t, field, (fuel - 1) as nat),
                    TyDefView::Enum { .. } => Some(
                        (
                            st.emit(TypeErrorView::UnknownField { ty, field: field.span }),
                            0,
                            TyView::Unknown,
                        ),
                    ),
                }
            },
            _ => Some(
                (st.emit(TypeErrorView::UnknownField { ty, field: field.span }), 0, TyView::Unknown),
            ),
        }
    }
}

/// Enough fuel for the field access, where some amount is enough.
pub open spec fn field_fuel(c: TcCtx, st: TcState, ty: TyView, field: Ident) -> nat {
    choose|f: nat| check_field_fuel(c, st, ty, field, f) is Some
}

/// The field access `.field` on a value of type `ty`; `None` where the
/// checker does not come back (an alias cycle) or reads an undefined type.
pub open spec fn check_field(c: TcCtx, st: TcState, ty: TyView, field: Ident) -> Option<(TcState, usize, TyView)> {
    if exists|f: nat| check_field_fuel(c, st, ty, field, f) is Some {
        check_field_fuel(c, st, ty, field, field_fuel(c, st, ty, field))
    } else {
        None
    }
}

// ---- divergence of loops ---------------------------------------------------
/// Whether a loop body contains a `break` that targets the loop it belongs to.
pub open spec fn spec_block_breaks(b: ast::Block) -> bool
    decreases b, 0nat,
{
    spec_stmts_break(b.stmts@) || match b.tail {
        Some(e) => spec_expr_breaks(e),
        None => false,
    }
}

pub open spec fn spec_stmts_break(s: Seq<ast::RStmt>) -> bool
    decreases s, 1nat,
{
    if s.len() == 0 {
        false
    } else {
        spec_stmts_break(s.drop_last()) || spec_stmt_breaks(*s.last().value)
    }
}

pub open spec fn spec_stmt_breaks(s: ast::Stmt) -> bool
    decreases s, 0nat,
{
    match s {
        ast::Stmt::Break { .. } => true,
        ast::Stmt::Loop { .. } => false,
        ast::Stmt::Continue => false,
        ast::Stmt::Expr(e) => spec_expr_breaks(e),
        ast::Stmt::Let { value, .. } => spec_expr_breaks(value),
        ast::Stmt::Assign { place, value } => spec_expr_breaks(place) || spec_expr_breaks(value),
        ast::Stmt::Return { value } => match value {
            Some(v) => spec_expr_breaks(v),
            None => false,
        },
        ast::Stmt::If { cond, then_block, else_block } => spec_expr_breaks(cond) || spec_block_breaks(
            *then_block.value,
        ) || match else_block {
            Some(b) => spec_block_breaks(*b.value),
            None => false,
        },
    }
}

pub open spec fn spec_expr_breaks(e: ast::RExpr) -> bool
    decreases e, 0nat,
{
    match *e.value {
        ast::Expr::Block(b) => spec_block_breaks(*b.value),
        ast::Expr::Grouping(n) => spec_expr_breaks(n),
        ast::Expr::Binary { lhs, rhs, .. } => spec_expr_breaks(lhs) || spec_expr_breaks(rhs),
        ast::Expr::Unary { rhs, .. } => spec_expr_breaks(rhs),
        ast::Expr::Field { lhs, .. } => spec_expr_breaks(lhs),
        ast::Expr::Call { lhs, args } => spec_expr_breaks(lhs) || spec_exprs_break(args@),
        ast::Expr::MethodCall { lhs, args, .. } => spec_expr_breaks(lhs) || spec_exprs_break(args@),
        ast::Expr::Index { lhs, index } => spec_expr_breaks(lhs) || spec_expr_breaks(index),
        ast::Expr::Ref(n) => spec_expr_breaks(n),
        ast::Expr::Deref(n) => spec_expr_breaks(n),
        ast::Expr::Literal(_) => false,
        ast::Expr::Variable(_) => false,
    }
}

pub open spec fn spec_exprs_break(s: Seq<ast::RExpr>) -> bool
    decreases s, 1nat,
{
    if s.len() == 0 {
        false
    } else {
        spec_exprs_break(s.drop_last()) || spec_expr_breaks(s.last())
    }
}

// ---- the walk --------------------------------------------------------------
/// Checking an expression: the state afterwards, the id of its hir node and
/// its type; `None` marks the inputs that the checker's `requires` leaves
/// out.
pub open spec fn tc_expr(c: TcCtx, st: TcState, e: ast::RExpr, ret: TyView) -> Option<
    (TcState, ExprId, TyView),
>
    decreases e, 0nat,
{
    match *e.value {
        ast::Expr::Literal(l) => {
            let (hl, ty) = check_literal(l);
            let (s1, id) = st.push(ExprView::Literal(hl));
            Some((s1, id, ty))
        },
        ast::Expr::Variable(node) => {
            let key = node.id.node();
            if !c.res.vars.contains_key(key) {
                None
            } else {
                match c.res.vars[key] {
                    Either::Left(v) => if st.env.contains_key(v) {
                        let (s1, id) = st.push(ExprView::Variable(v));
                        Some((s1, id, st.env[v]))
                    } else {
                        None
                    },
                    Either::Right(f) => if c.defs.fn_defined(f) {
                        let (s1, id) = st.push(ExprView::Function(f));
                        Some((s1, id, c.defs.func(f).signature()))
                    } else {
                        None
                    },
                }
            }
        },
        ast::Expr::Grouping(n) => tc_expr(c, st, n, ret),
        ast::Expr::Binary { lhs, rhs, op } => match tc_expr(c, st, lhs, ret) {
            None => None,
            Some((s1, l, lt)) => match tc_expr(c, s1, rhs, ret) {
                None => None,
                Some((s2, r, rt)) => {
                    let (s3, ty) = infer_binary(s2, lt, rt, op, e.span);
                    let (s4, id) = s3.push(ExprView::Binary { lhs: l, rhs: r, op });
                    Some((s4, id, ty))
                },
            },
        },
        ast::Expr::Unary { rhs, op } => match tc_expr(c, st, rhs, ret) {
            None => None,
            Some((s1, r, rt)) => {
                let (s2, ty) = infer_unary(s1, rt, op, e.span);
                let (s3, id) = s2.push(ExprView::Unary { rhs: r, op });
                Some((s3, id, ty))
            },
        },
        ast::Expr::Field { lhs, name } => match tc_expr(c, st, lhs, ret) {
            None => None,
            Some((s1, l, lt)) => match check_field(c, s1, lt, name) {
                None => None,
                Some((s2, index, fty)) => {
                    let (s3, id) = s2.push(ExprView::Field { lhs: l, index });
                    Some((s3, id, fty))
                },
            },
        },
        ast::Expr::Call { lhs, args } => match tc_expr(c, st, lhs, ret) {
            None => None,
            Some((s1, f, ft)) => match tc_exprs(c, s1, args@, ret) {
                None => None,
                Some((s2, ids, tys)) => {
                    let (s3, ty) = check_call(s2, ft, tys, e.span);
                    let (s4, id) = s3.push(ExprView::Call { lhs: f, args: ids });
                    Some((s4, id, ty))
                },
            },
        },
        ast::Expr::MethodCall { .. } => None,
        ast::Expr::Index { lhs, index } => match tc_expr(c, st, lhs, ret) {
            None => None,
            Some((s1, l, lt)) => match tc_expr(c, s1, index, ret) {
                None => None,
                Some((s2, i, it)) => {
                    let (s3, ty) = check_index(s2, lt, it, e.span);
                    let (s4, id) = s3.push(ExprView::Index { lhs: l, index: i });
                    Some((s4, id, ty))
                },
            },
        },
        ast::Expr::Ref(n) => match tc_expr(c, st, n, ret) {
            None => None,
            Some((s1, r, rt)) => {
                let ty = if rt is Never {
                    TyView::Never
                } else {
                    TyView::Pointer(Box::new(rt))
                };
                let (s2, id) = s1.push(ExprView::Ref(r));
                Some((s2, id, ty))
            },
        },
        ast::Expr::Deref(n) => match tc_expr(c, st, n, ret) {
            None => None,
            Some((s1, r, rt)) => {
                let (s2, ty) = check_deref(s1, rt, e.span);
                let (s3, id) = s2.push(ExprView::Deref(r));
                Some((s3, id, ty))
            },
        },
        ast::Expr::Block(b) => match tc_block(c, st, *b.value, ret) {
            None => None,
            Some((s1, hb, ty)) => {
                let (s2, id) = s1.push(ExprView::Block(hb));
                Some((s2, id, ty))
            },
        },
    }
}

/// Checking a list of expressions in order.
pub open spec fn tc_exprs(c: TcCtx, st: TcState, es: Seq<ast::RExpr>, ret: TyView) -> Option<
    (TcState, Seq<ExprId>, Seq<TyView>),
>
    decreases es, 1nat,
{
    if es.len() == 0 {
        Some((st, Seq::empty(), Seq::empty()))
    } else {
        match tc_exprs(c, st, es.drop_last(), ret) {
            None => None,
            Some((s1, ids, tys)) => match tc_expr(c, s1, es.last(), ret) {
                None => None,
                Some((s2, id, ty)) => Some((s2, ids.push(id), tys.push(ty))),
            },
        }
    }
}

/// Checking a block: its statements, then its tail. The block has type
/// `Never` if a statement diverges, else the type of its tail, else `Unit`.
pub open spec fn tc_block(c: TcCtx, st: TcState, b: ast::Block, ret: TyView) -> Option<
    (TcState, BlockView, TyView),
>
    decreases b, 0nat,
{
    match tc_stmts(c, st, b.stmts@, ret) {
        None => None,
        Some((s1, hs, div)) => match b.tail {
            Some(t) => match tc_expr(c, s1, t, ret) {
                None => None,
                Some((s2, tid, tty)) => Some(
                    (
                        s2,
                        BlockView { stmts: hs, tail: Some(tid) },
                        if div {
                            TyView::Never
                        } else {
                            tty
                        },
                    ),
                ),
            },
            None => Some(
                (
                    s1,
                    BlockView { stmts: hs, tail: None },
                    if div {
                        TyView::Never
                    } else {
                        TyView::Unit
                    },
                ),
            ),
        },
    }
}

/// Checking statements in order; the flag tells whether one of them diverges.
pub open spec fn tc_stmts(c: TcCtx, st: TcState, ss: Seq<ast::RStmt>, ret: TyView) -> Option<
    (TcState, Seq<StmtView>, bool),
>
    decreases ss, 1nat,
{
    if ss.len() == 0 {
        Some((st, Seq::empty(), false))
    } else {
        match tc_stmts(c, st, ss.drop_last(), ret) {
            None => None,
            Some((s1, hs, div)) => match tc_stmt(c, s1, *ss.last().value, ret) {
                None => None,
                Some((s2, h, ty)) => Some((s2, hs.push(h), div || ty is Never)),
            },
        }
    }
}

pub open spec fn falls(diverges: bool) -> TyView {
    if diverges {
        TyView::Never
    } else {
        TyView::Unit
    }
}

/// Checking a statement: the state afterwards, its hir node, and `Never`
/// where control does not fall through it, else `Unit`.
pub open spec fn tc_stmt(c: TcCtx, st: TcState, s: ast::Stmt, ret: TyView) -> Option<
    (TcState, StmtView, TyView),
>
    decreases s, 0nat,
{
    match s {
        ast::Stmt::Expr(e) => match tc_expr(c, st, e, ret) {
            None => None,
            Some((s1, id, ty)) => Some((s1, StmtView::Expr(id), falls(ty is Never))),
        },
        ast::Stmt::Let { name, ty, value } => {
            let key = name.id.node();
            if !c.res.vars.contains_key(key) || !(c.res.vars[key] is Left) {
                None
            } else {
                let v = c.res.vars[key]->Left_0;
                match tc_expr(c, st, value, ret) {
                    None => None,
                    Some((s1, eid, inferred)) => match ty {
                        Some(t) => if !c.res.tys.contains_key(t.id.node()) {
                            None
                        } else {
                            let (s2, ty2) = check_type(
                                s1,
                                inferred,
                                c.res.tys[t.id.node()],
                                value.span,
                            );
                            Some(
                                (
                                    s2.bind(v, ty2),
                                    StmtView::Let { name: v, ty: ty2, value: eid },
                                    falls(inferred is Never),
                                ),
                            )
                        },
                        None => Some(
                            (
                                s1.bind(v, inferred),
                                StmtView::Let { name: v, ty: inferred, value: eid },
                                falls(inferred is Never),
                            ),
                        ),
                    },
                }
            }
        },
        ast::Stmt::Assign { place, value } => match tc_expr(c, st, value, ret) {
            None => None,
            Some((s1, vid, vty)) => match tc_expr(c, s1, place, ret) {
                None => None,
                Some((s2, pid, pty)) => {
                    let (s3, _) = check_type(s2, vty, pty, value.span);
                    Some(
                        (
                            s3,
                            StmtView::Assign { place: pid, value: vid },
                            falls(vty is Never || pty is Never),
                        ),
                    )
                },
            },
        },
        ast::Stmt::Return { value } => match value {
            Some(v) => match tc_expr(c, st, v, ret) {
                None => None,
                Some((s1, id, ty)) => {
                    let (s2, _) = check_type(s1, ty, ret, v.span);
                    Some((s2, StmtView::Return { value: Some(id) }, TyView::Never))
                },
            },
            None => Some((st, StmtView::Return { value: None }, TyView::Never)),
        },
        ast::Stmt::Loop { body } => match tc_block(c, st, *body.value, ret) {
            None => None,
            Some((s1, hb, ty)) => {
                let (s2, _) = check_type(s1, ty, TyView::Unit, body.span);
                Some(
                    (
                        s2,
                        StmtView::Loop { body: hb },
                        if spec_block_breaks(*body.value) {
                            TyView::Unit
                        } else {
                            TyView::Never
                        },
                    ),
                )
            },
        },
        ast::Stmt::Break { value } => match value {
            Some(_) => None,
            None => Some((st, StmtView::Break { value: None }, TyView::Never)),
        },
        ast::Stmt::Continue => Some((st, StmtView::Continue, TyView::Never)),
        ast::Stmt::If { cond, then_block, else_block } => match tc_expr(c, st, cond, ret) {
            None => None,
            Some((s1, cid, cty)) => {
                let (s2, _) = check_type(s1, cty, bool_ty(), cond.span);
                match tc_block(c, s2, *then_block.value, ret) {
                    None => None,
                    Some((s3, hthen, tty)) => {
                        let (s4, _) = check_type(s3, tty, TyView::Unit, then_block.span);
                        match else_block {
                            Some(b) => match tc_block(c, s4, *b.value, ret) {
                                None => None,
                                Some((s5, helse, ety)) => {
                                    let (s6, _) = check_type(s5, ety, TyView::Unit, b.span);
                                    Some(
                                        (
                                            s6,
                                            StmtView::If {
                                                cond: cid,
                                                then_block: hthen,
                                                else_block: Some(helse),
                                            },
                                            falls(
                                                cty is Never || (tty is Never && ety is Never),
                                            ),
                                        ),
                                    )
                                },
                            },
                            None => Some(
                                (
                                    s4,
                                    StmtView::If { cond: cid, then_block: hthen, else_block: None },
                                    falls(cty is Never),
                                ),
                            ),
                        }
                    },
                }
            },
        },
    }
}

/// Binding the arguments of a function to their resolved types, in order.
pub open spec fn tc_args(c: TcCtx, st: TcState, args: Seq<(Ident, ast::RType)>) -> Option<TcState>
    decreases args.len(),
{
    if args.len() == 0 {
        Some(st)
    } else {
        match tc_args(c, st, args.drop_last()) {
            None => None,
            Some(s1) => {
                let (name, ty) = args.last();
                let key = name.id.node();
                if !c.res.vars.contains_key(key) || !(c.res.vars[key] is Left)
                    || !c.res.tys.contains_key(ty.id.node()) {
                    None
                } else {
                    Some(s1.bind(c.res.vars[key]->Left_0, c.res.tys[ty.id.node()]))
                }
            },
        }
    }
}

/// Checking a function whose id is `id`: its arguments are bound, then its
/// body is checked against its declared return type.
pub open spec fn tc_function(c: TcCtx, st: TcState, func: ast::Function, id: FnId) -> Option<
    (TcState, BlockView),
> {
    match tc_args(c, st, func.args@) {
        None => None,
        Some(s1) => if !c.defs.fn_defined(id) {
            None
        } else {
            let expected = c.defs.func(id).ret;
            match tc_block(c, s1, *func.body.value, expected) {
                None => None,
                Some((s2, hb, inferred)) => {
                    let (s3, _) = check_type(s2, inferred, expected, func.body.span);
                    Some((s3, hb))
                },
            }
        },
    }
}

/// Checking the functions among the items of a program, in order.
pub open spec fn tc_items(c: TcCtx, st: TcState, items: Seq<ast::Item>) -> Option<
    (TcState, Map<FnId, BlockView>),
>
    decreases items.len(),
{
    if items.len() == 0 {
        Some((st, Map::empty()))
    } else {
        match tc_items(c, st, items.drop_last()) {
            None => None,
            Some((s1, fns)) => match items.last() {
                ast::Item::Function(func) => {
                    let key = func.id.node();
                    if !c.res.fns.contains_key(key) {
                        None
                    } else {
                        let id = c.res.fns[key];
                        match tc_function(c, s1, *func.value, id) {
                            None => None,
                            Some((s2, hb)) => Some((s2, fns.insert(id, hb))),
                        }
                    }
                },
                _ => Some((s1, fns)),
            },
        }
    }
}

// ---- prefixes of the folds --------------------------------------------------
pub proof fn lemma_tc_exprs_prefix(c: TcCtx, st: TcState, es: Seq<ast::RExpr>, ret: TyView, k: int)
    requires
        tc_exprs(c, st, es, ret) is Some,
        0 <= k <= es.len(),
    ensures
        tc_exprs(c, st, es.take(k), ret) is Some,
    decreases es.len(),
{
    if k == es.len() {
        assert(es.take(k) =~= es);
    } else {
        assert(es.drop_last().take(k) =~= es.take(k));
        lemma_tc_exprs_prefix(c, st, es.drop_last(), ret, k);
    }
}

pub proof fn lemma_tc_stmts_prefix(c: TcCtx, st: TcState, ss: Seq<ast::RStmt>, ret: TyView, k: int)
    requires
        tc_stmts(c, st, ss, ret) is Some,
        0 <= k <= ss.len(),
    ensures
        tc_stmts(c, st, ss.take(k), ret) is Some,
    decreases ss.len(),
{
    if k == ss.len() {
        assert(ss.take(k) =~= ss);
    } else {
        assert(ss.drop_last().take(k) =~= ss.take(k));
        lemma_tc_stmts_prefix(c, st, ss.drop_last(), ret, k);
    }
}

pub proof fn lemma_tc_args_prefix(c: TcCtx, st: TcState, args: Seq<(Ident, ast::RType)>, k: int)
    requires
        tc_args(c, st, args) is Some,
        0 <= k <= args.len(),
    ensures
        tc_args(c, st, args.take(k)) is Some,
    decreases args.len(),
{
    if k == args.len() {
        assert(args.take(k) =~= args);
    } else {
        assert(args.drop_last().take(k) =~= args.take(k));
        lemma_tc_args_prefix(c, st, args.drop_last(), k);
    }
}

pub proof fn lemma_tc_items_prefix(c: TcCtx, st: TcState, items: Seq<ast::Item>, k: int)
    requires
        tc_items(c, st, items) is Some,
        0 <= k <= items.len(),
    ensures
        tc_items(c, st, items.take(k)) is Some,
    decreases items.len(),
{
    if k == items.len() {
        assert(items.take(k) =~= items);
    } else {
        assert(items.drop_last().take(k) =~= items.take(k));
        lemma_tc_items_prefix(c, st, items.drop_last(), k);
    }
}

} // verus!
