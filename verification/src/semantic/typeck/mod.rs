// Now that we have a fully resolved AST, we can start type checking.
// Since we don't yet support generics or any complex type features,
// the type system consists of just simple bidirectional type checking.
use vstd::prelude::*;

use rustc_hash::FxHashMap;

use crate::semantic::ast::{self, first_pos, symbol_eq, BinOp, Ident, Symbol, UnOp};
use crate::semantic::diagnostics::Diagnostics;
use crate::semantic::fxmap::{fx_get, fx_insert};
use crate::semantic::nameres::{
    copy_ty, fields_view, lemma_tys_view, ty_eq, ty_view, tys_view, BuiltinTy, Definitions, FnId, Resolutions,
    Ty, TyDef, TyView, VarId,
};
use crate::semantic::node::Span;
use crate::semantic::parser::token;
use crate::semantic::parser::tree::Either;

pub mod hir;
pub mod laws;
pub mod rules;

use hir::{exprs_view, ExprId};
use laws::{law_checked_items_wf, module_wf};
use rules::{
    bool_ty, check_call, check_deref, check_field, check_field_fuel, check_index, check_literal,
    check_type, falls, field_fuel, field_names, min_len, arg_mismatches, binary_class, infer_binary, infer_unary, spec_block_breaks, spec_expr_breaks,
    spec_exprs_break, spec_fits, spec_is_equatable, spec_is_float, spec_is_integer,
    spec_is_numeric, spec_is_ordered, spec_is_signed_integer, spec_stmt_breaks, spec_stmts_break,
    tc_args, tc_block, tc_expr, tc_exprs, tc_function, tc_items, tc_stmt, tc_stmts, TcCtx, TcState, lemma_tc_exprs_prefix, lemma_tc_stmts_prefix, lemma_tc_args_prefix, lemma_tc_items_prefix,
    TypeErrorView,
};

verus! {

#[derive(Debug)]
pub enum TypeError {
    UnknownField { ty: Ty, field: Span },
    ArgumentCountMismatch { call: Span, func: Ty, count: usize },
    NonIndexableType { span: Span, ty: Ty },
    InvalidIndexType { ty: Ty, span: Span, index_ty: Ty },
    InvalidDeref { span: Span, ty: Ty },
    InvalidUnaryOperand { span: Span, op: UnOp, ty: Ty },
    InvalidBinaryOperands { span: Span, op: BinOp, lhs: Ty, rhs: Ty },
    MismatchedBinaryOperands { span: Span, op: BinOp, lhs: Ty, rhs: Ty },
    TypeMismatch { span: Span, found: Ty, expected: Ty },
    ArgumentTypeMismatch { call: Span, index: usize, found: Ty, expected: Ty },
    NotCallable { span: Span, ty: Ty },
}

pub open spec fn type_error_view(e: TypeError) -> TypeErrorView {
    match e {
        TypeError::UnknownField { ty, field } => TypeErrorView::UnknownField { ty: ty@, field },
        TypeError::ArgumentCountMismatch { call, func, count } => TypeErrorView::ArgumentCountMismatch {
            call,
            func: func@,
            count,
        },
        TypeError::NonIndexableType { span, ty } => TypeErrorView::NonIndexableType { span, ty: ty@ },
        TypeError::InvalidIndexType { ty, span, index_ty } => TypeErrorView::InvalidIndexType {
            ty: ty@,
            span,
            index_ty: index_ty@,
        },
        TypeError::InvalidDeref { span, ty } => TypeErrorView::InvalidDeref { span, ty: ty@ },
        TypeError::InvalidUnaryOperand { span, op, ty } => TypeErrorView::InvalidUnaryOperand {
            span,
            op,
            ty: ty@,
        },
        TypeError::InvalidBinaryOperands { span, op, lhs, rhs } => TypeErrorView::InvalidBinaryOperands {
            span,
            op,
            lhs: lhs@,
            rhs: rhs@,
        },
        TypeError::MismatchedBinaryOperands {
            span,
            op,
            lhs,
            rhs,
        } => TypeErrorView::MismatchedBinaryOperands { span, op, lhs: lhs@, rhs: rhs@ },
        TypeError::TypeMismatch { span, found, expected } => TypeErrorView::TypeMismatch {
            span,
            found: found@,
            expected: expected@,
        },
        TypeError::ArgumentTypeMismatch {
            call,
            index,
            found,
            expected,
        } => TypeErrorView::ArgumentTypeMismatch {
            call,
            index,
            found: found@,
            expected: expected@,
        },
        TypeError::NotCallable { span, ty } => TypeErrorView::NotCallable { span, ty: ty@ },
    }
}

impl View for TypeError {
    type V = TypeErrorView;

    open spec fn view(&self) -> TypeErrorView {
        type_error_view(*self)
    }
}

pub open spec fn errors_view(s: Seq<TypeError>) -> Seq<TypeErrorView> {
    s.map_values(|e: TypeError| e@)
}

pub open spec fn env_view(m: Map<VarId, Ty>) -> Map<VarId, TyView> {
    m.map_values(|t: Ty| t@)
}

pub struct Typeck {
    env: FxHashMap<VarId, Ty>,
    resolutions: Resolutions,
    definitions: Definitions,
    diagnostics: Diagnostics<TypeError>,
}

impl Typeck {
    /// The results of name resolution that the checker reads.
    pub closed spec fn ctx(&self) -> TcCtx {
        TcCtx { res: self.resolutions@, defs: self.definitions@ }
    }

    /// The checker's state, with `exprs` as the expressions built so far.
    pub closed spec fn state(&self, exprs: Seq<hir::Expr>) -> TcState {
        TcState {
            env: env_view(self.env@),
            diags: errors_view(self.diagnostics@),
            exprs: exprs_view(exprs),
        }
    }

    pub fn new(resolutions: Resolutions, definitions: Definitions) -> (r: Self)
        ensures
            r.ctx() == (TcCtx { res: resolutions@, defs: definitions@ }),
            r.state(Seq::empty()) == (TcState {
                env: Map::empty(),
                diags: Seq::empty(),
                exprs: Seq::empty(),
            }),
    {
        let r = Self {
            resolutions,
            definitions,
            env: FxHashMap::default(),
            diagnostics: Diagnostics::new(),
        };
        assert(r.state(Seq::empty()).env =~= Map::<VarId, TyView>::empty());
        assert(r.state(Seq::empty()).diags =~= Seq::<TypeErrorView>::empty());
        assert(r.state(Seq::empty()).exprs =~= Seq::<hir::ExprView>::empty());
        r
    }

    /// The type errors found so far, in the order in which they were found.
    pub fn diagnostics(&self) -> (r: &Diagnostics<TypeError>)
        ensures
            errors_view(r@) == self.state(Seq::empty()).diags,
    {
        &self.diagnostics
    }

    fn emit(&mut self, e: TypeError)
        ensures
            final(self).ctx() == old(self).ctx(),
            forall|x: Seq<hir::Expr>| #[trigger]
                final(self).state(x) == old(self).state(x).emit(e@),
    {
        let ghost d = e@;
        self.diagnostics.push(e);
        assert(errors_view(self.diagnostics@) =~= errors_view(old(self).diagnostics@).push(d));
    }

    fn bind(&mut self, v: VarId, t: Ty)
        ensures
            final(self).ctx() == old(self).ctx(),
            forall|x: Seq<hir::Expr>| #[trigger]
                final(self).state(x) == old(self).state(x).bind(v, t@),
    {
        let ghost tv = t@;
        fx_insert(&mut self.env, v, t);
        assert(env_view(self.env@) =~= env_view(old(self).env@).insert(v, tv));
    }

    fn emit_unknown_field(&mut self, ty: Ty, field: &Ident)
        ensures
            final(self).ctx() == old(self).ctx(),
            forall|x: Seq<hir::Expr>| #[trigger]
                final(self).state(x) == old(self).state(x).emit(
                    TypeErrorView::UnknownField { ty: ty@, field: field.span },
                ),
    {
        self.emit(TypeError::UnknownField { ty, field: field.span() });
    }

    fn emit_invalid_unary(&mut self, op: UnOp, ty: Ty, span: Span)
        ensures
            final(self).ctx() == old(self).ctx(),
            forall|x: Seq<hir::Expr>| #[trigger]
                final(self).state(x) == old(self).state(x).emit(
                    TypeErrorView::InvalidUnaryOperand { span, op, ty: ty@ },
                ),
    {
        self.emit(TypeError::InvalidUnaryOperand { span, op, ty });
    }

    fn emit_invalid_binary(&mut self, op: BinOp, lhs: Ty, rhs: Ty, span: Span)
        ensures
            final(self).ctx() == old(self).ctx(),
            forall|x: Seq<hir::Expr>| #[trigger]
                final(self).state(x) == old(self).state(x).emit(
                    TypeErrorView::InvalidBinaryOperands { span, op, lhs: lhs@, rhs: rhs@ },
                ),
    {
        self.emit(TypeError::InvalidBinaryOperands { span, op, lhs, rhs });
    }

    fn emit_mismatched_binary(&mut self, op: BinOp, lhs: Ty, rhs: Ty, span: Span)
        ensures
            final(self).ctx() == old(self).ctx(),
            forall|x: Seq<hir::Expr>| #[trigger]
                final(self).state(x) == old(self).state(x).emit(
                    TypeErrorView::MismatchedBinaryOperands { span, op, lhs: lhs@, rhs: rhs@ },
                ),
    {
        self.emit(TypeError::MismatchedBinaryOperands { span, op, lhs, rhs });
    }

    fn emit_type_mismatch(&mut self, found: Ty, expected: Ty, span: Span)
        ensures
            final(self).ctx() == old(self).ctx(),
            forall|x: Seq<hir::Expr>| #[trigger]
                final(self).state(x) == old(self).state(x).emit(
                    TypeErrorView::TypeMismatch { span, found: found@, expected: expected@ },
                ),
    {
        self.emit(TypeError::TypeMismatch { span, found, expected });
    }

    fn emit_argument_mismatch(&mut self, index: usize, found: Ty, expected: Ty, call: Span)
        ensures
            final(self).ctx() == old(self).ctx(),
            forall|x: Seq<hir::Expr>| #[trigger]
                final(self).state(x) == old(self).state(x).emit(
                    TypeErrorView::ArgumentTypeMismatch {
                        call,
                        index,
                        found: found@,
                        expected: expected@,
                    },
                ),
    {
        self.emit(TypeError::ArgumentTypeMismatch { call, index, found, expected });
    }

    fn emit_not_callable(&mut self, ty: Ty, span: Span)
        ensures
            final(self).ctx() == old(self).ctx(),
            forall|x: Seq<hir::Expr>| #[trigger]
                final(self).state(x) == old(self).state(x).emit(
                    TypeErrorView::NotCallable { span, ty: ty@ },
                ),
    {
        self.emit(TypeError::NotCallable { span, ty });
    }

    /// Checks that `found` coerces to `expected` and returns the type to keep
    /// inferring with (the established side).
    ///
    /// `Never` is the bottom type: a `Never` value may be used where any type is
    /// expected, but no other type may be used where `Never` is expected.
    fn check_type(&mut self, found: Ty, expected: Ty, span: Span) -> (r: Ty)
        ensures
            final(self).ctx() == old(self).ctx(),
            forall|x: Seq<hir::Expr>|
                (#[trigger] final(self).state(x), r@) == check_type(
                    old(self).state(x),
                    found@,
                    expected@,
                    span,
                ),
    {
        if !fits(&found, &expected) {
            self.emit_type_mismatch(found, expected, span);
            return Ty::Unknown;
        }
        if matches!(found, Ty::Never | Ty::Unknown) {
            expected
        } else {
            found
        }
    }
}

impl Typeck {
    fn check_literal(&mut self, literal: &token::Literal) -> (r: (hir::Literal, Ty))
        ensures
            *final(self) == *old(self),
            (hir::literal_view(r.0), r.1@) == check_literal(*literal),
    {
        match literal {
            token::Literal::Int(i) => (hir::Literal::Int(*i), Ty::Builtin(BuiltinTy::I32)),
            token::Literal::Float(f) => (hir::Literal::Float(*f), Ty::Builtin(BuiltinTy::F32)),
            token::Literal::Bool(b) => (hir::Literal::Bool(*b), Ty::Builtin(BuiltinTy::Bool)),
            token::Literal::String(s) => (
                hir::Literal::String(s.clone()),
                Ty::Builtin(BuiltinTy::String),
            ),
            token::Literal::Char(c) => (hir::Literal::Char(*c), Ty::Builtin(BuiltinTy::Char)),
        }
    }

    // we do not yet support user defined operator methods
    fn infer_unary(&mut self, ty: Ty, op: UnOp, span: Span) -> (r: Ty)
        ensures
            final(self).ctx() == old(self).ctx(),
            forall|x: Seq<hir::Expr>|
                (#[trigger] final(self).state(x), r@) == infer_unary(old(self).state(x), ty@, op, span),
    {
        // `!` is logical negation for booleans and bitwise negation for
        // integers; in both cases the operand and result types are equal.
        if matches!(op, UnOp::Not) && (matches!(ty, Ty::Builtin(BuiltinTy::Bool)) || is_integer(&ty)) {
            ty
        // `-` is defined for signed integers and floats and preserves the type.
        } else if matches!(op, UnOp::Neg) && (is_signed_integer(&ty) || is_float(&ty)) {
            ty
        // an operand that never yields makes the whole expression diverge
        } else if matches!(ty, Ty::Never) {
            Ty::Never
        // the operand already failed to be inferred, so don't add noise.
        } else if matches!(ty, Ty::Unknown) {
            Ty::Unknown
        } else {
            self.emit_invalid_unary(op, ty, span);
            Ty::Unknown
        }
    }

    fn binary_class(&mut self, lhs: Ty, rhs: Ty, op: BinOp, span: Span, lhs_in: bool, rhs_in: bool, ok: Ty) -> (r: Ty)
        ensures
            final(self).ctx() == old(self).ctx(),
            forall|x: Seq<hir::Expr>|
                (#[trigger] final(self).state(x), r@) == binary_class(old(self).state(x), lhs@, rhs@, op, span, lhs_in, rhs_in, ok@),
    {
        if !lhs_in || !rhs_in {
            self.emit_invalid_binary(op, lhs, rhs, span);
            Ty::Unknown
        } else if !ty_eq(&lhs, &rhs) {
            self.emit_mismatched_binary(op, lhs, rhs, span);
            Ty::Unknown
        } else {
            ok
        }
    }

    // we do not yet support user defined operator methods
    fn infer_binary(&mut self, lhs: Ty, rhs: Ty, op: BinOp, span: Span) -> (r: Ty)
        ensures
            final(self).ctx() == old(self).ctx(),
            forall|x: Seq<hir::Expr>|
                (#[trigger] final(self).state(x), r@) == infer_binary(old(self).state(x), lhs@, rhs@, op, span),
    {
        // if either operand never yields, the whole expression diverges
        if matches!(lhs, Ty::Never) || matches!(rhs, Ty::Never) {
            return Ty::Never;
        }
        // if either operand failed to be inferred there is nothing meaningful
        // to check, and reporting here would only produce cascading errors.
        if matches!(lhs, Ty::Unknown) || matches!(rhs, Ty::Unknown) {
            return Ty::Unknown;
        }
        let bool_ty = Ty::Builtin(BuiltinTy::Bool);
        match op {
            // arithmetic operators require two operands of the same numeric type
            BinOp::Add | BinOp::Sub | BinOp::Mul | BinOp::Div | BinOp::Mod => {
                let (l, r) = (is_numeric(&lhs), is_numeric(&rhs));
                let ok = copy_ty(&lhs);
                self.binary_class(lhs, rhs, op, span, l, r, ok)
            },
            // equality is defined for builtins, pointers and unit, and always
            // yields a boolean
            BinOp::Eq | BinOp::Ne => {
                let (l, r) = (is_equatable(&lhs), is_equatable(&rhs));
                self.binary_class(lhs, rhs, op, span, l, r, bool_ty)
            },
            // ordering is defined for numbers, chars and strings
            BinOp::Lt | BinOp::Le | BinOp::Gt | BinOp::Ge => {
                let (l, r) = (is_ordered(&lhs), is_ordered(&rhs));
                self.binary_class(lhs, rhs, op, span, l, r, bool_ty)
            },
            // logical operators only accept booleans
            BinOp::And | BinOp::Or => {
                if matches!(lhs, Ty::Builtin(BuiltinTy::Bool)) && matches!(rhs, Ty::Builtin(BuiltinTy::Bool)) {
                    bool_ty
                } else {
                    self.emit_invalid_binary(op, lhs, rhs, span);
                    Ty::Unknown
                }
            },
        }
    }

    fn check_deref(&mut self, ty: Ty, span: Span) -> (r: Ty)
        ensures
            final(self).ctx() == old(self).ctx(),
            forall|x: Seq<hir::Expr>|
                (#[trigger] final(self).state(x), r@) == check_deref(old(self).state(x), ty@, span),
    {
        match ty {
            Ty::Pointer(ty) => *ty,
            // the operand never yields, so the dereference never yields either
            Ty::Never => Ty::Never,
            Ty::Unknown => Ty::Unknown,
            _ => {
                self.emit(TypeError::InvalidDeref { span, ty });
                Ty::Unknown
            },
        }
    }

    fn check_index(&mut self, lhs: Ty, index: Ty, span: Span) -> (r: Ty)
        ensures
            final(self).ctx() == old(self).ctx(),
            forall|x: Seq<hir::Expr>|
                (#[trigger] final(self).state(x), r@) == check_index(old(self).state(x), lhs@, index@, span),
    {
        // indexing into, or with, an expression that never yields diverges
        if matches!(lhs, Ty::Never) || matches!(index, Ty::Never) {
            return Ty::Never;
        }
        let elem = match &lhs {
            Ty::Pointer(ty) => Some(copy_ty(ty)),
            Ty::Array(ty) => Some(copy_ty(ty)),
            _ => None,
        };
        match elem {
            Some(ret) => {
                match index {
                    Ty::Builtin(BuiltinTy::U8)
                    | Ty::Builtin(BuiltinTy::U16)
                    | Ty::Builtin(BuiltinTy::U32)
                    | Ty::Builtin(BuiltinTy::U64)
                    | Ty::Unknown => {},
                    _ => {
                        self.emit(TypeError::InvalidIndexType { ty: lhs, span, index_ty: index });
                    },
                }
                ret
            },
            None => {
                self.emit(TypeError::NonIndexableType { span, ty: lhs });
                Ty::Unknown
            },
        }
    }

    fn check_call(&mut self, func: Ty, args: &Vec<Ty>, call_span: Span) -> (r: Ty)
        ensures
            final(self).ctx() == old(self).ctx(),
            forall|x: Seq<hir::Expr>|
                (#[trigger] final(self).state(x), r@) == check_call(old(self).state(x), func@, tys_view(args@), call_span),
        decreases func,
    {
        proof {
            lemma_tys_view(args@);
        }
        if let Ty::Pointer(ty) = func {
            return self.check_call(*ty, args, call_span);
        }
        // calling an expression that never yields diverges
        if matches!(func, Ty::Never) {
            return Ty::Never;
        }
        if let Ty::Fn(ret, params) = &func {
            // get the return type
            let ret = copy_ty(ret);
            proof {
                lemma_tys_view(params@);
            }
            let ghost params_v = tys_view(params@);
            let ghost args_v = tys_view(args@);
            let n = if args.len() < params.len() { args.len() } else { params.len() };
            // check if the arguments fit their parameters
            let mut index: usize = 0;
            while index < n
                invariant
                    index <= n,
                    n == min_len(args_v.len(), params_v.len()),
                    args_v.len() == args@.len(),
                    params_v.len() == params@.len(),
                    params_v == tys_view(params@),
                    args_v == tys_view(args@),
                    forall|i: int| 0 <= i < args@.len() ==> #[trigger] args_v[i] == ty_view(args@[i]),
                    forall|i: int| 0 <= i < params@.len() ==> #[trigger] params_v[i] == ty_view(params@[i]),
                    self.ctx() == old(self).ctx(),
                    forall|x: Seq<hir::Expr>| #[trigger] self.state(x) == arg_mismatches(old(self).state(x), args_v, params_v, call_span, index as nat),
                decreases n - index,
            {
                let ghost before = *self;
                assert(args_v[index as int] == ty_view(args@[index as int]));
                assert(params_v[index as int] == ty_view(params@[index as int]));
                if !fits(&args[index], &params[index]) {
                    self.emit_argument_mismatch(index, copy_ty(&args[index]), copy_ty(&params[index]), call_span);
                }
                index = index + 1;
            }
            // check if the count/arity matches
            if params.len() != args.len() {
                let count = args.len();
                self.emit(TypeError::ArgumentCountMismatch { call: call_span, func, count });
            }
            return ret;
        }
        self.emit_not_callable(func, call_span);
        Ty::Unknown
    }

    fn check_field(&mut self, ty: Ty, field: &Ident, Ghost(xs): Ghost<Seq<hir::Expr>>, Ghost(fuel): Ghost<nat>) -> (r: (usize, Ty))
        requires
            check_field_fuel(old(self).ctx(), old(self).state(xs), ty@, *field, fuel) is Some,
        ensures
            final(self).ctx() == old(self).ctx(),
            ({
                let (s, i, t) = check_field_fuel(old(self).ctx(), old(self).state(xs), ty@, *field, fuel)->Some_0;
                final(self).state(xs) == s && r.0 == i && r.1@ == t
            }),
        decreases fuel,
    {
        let ghost tyv = ty@;
        match ty {
            Ty::Pointer(inner) => {
                assert(tyv == TyView::Pointer(Box::new(inner@)));
                self.check_field(*inner, field, Ghost(xs), Ghost((fuel - 1) as nat))
            },
            // the receiver never yields, so the field access never yields either
            Ty::Never => (0, Ty::Never),
            Ty::Custom(id) => {
                let def = self.definitions.tys(id);
                match def {
                    TyDef::Struct { fields } => {
                        let ghost names = field_names(fields_view(fields@));
                        let mut idx: usize = 0;
                        let mut found: Option<Ty> = None;
                        while idx < fields.len()
                            invariant_except_break
                                found is None,
                            invariant
                                idx <= fields@.len(),
                                names == field_names(fields_view(fields@)),
                                names.len() == fields@.len(),
                                forall|j: int| 0 <= j < idx ==> #[trigger] names[j] != field.value,
                            ensures
                                found is None ==> idx == fields@.len(),
                                found is Some ==> idx < fields@.len() && names[idx as int] == field.value
                                    && found->Some_0@ == fields@[idx as int].1@,
                            decreases fields@.len() - idx,
                        {
                            assert(names[idx as int] == fields@[idx as int].0);
                            if symbol_eq(&fields[idx].0, &field.value) {
                                found = Some(copy_ty(&fields[idx].1));
                                break;
                            }
                            idx = idx + 1;
                        }
                        proof {
                            lemma_first_pos_scan(names, field.value, idx as int);
                        }
                        match found {
                            Some(t) => (idx, t),
                            None => {
                                let len = fields.len();
                                self.emit_unknown_field(Ty::Custom(id), field);
                                (len, Ty::Unknown)
                            },
                        }
                    },
                    TyDef::Alias(ty) => {
                        let ty = copy_ty(ty);
                        self.check_field(ty, field, Ghost(xs), Ghost((fuel - 1) as nat))
                    },
                    TyDef::Enum { .. } => {
                        self.emit_unknown_field(Ty::Custom(id), field);
                        (0, Ty::Unknown)
                    },
                }
            },
            _ => {
                self.emit_unknown_field(ty, field);
                (0, Ty::Unknown)
            },
        }
    }
}

proof fn lemma_first_pos_scan(names: Seq<Symbol>, k: Symbol, i: int)
    requires
        0 <= i <= names.len(),
        forall|j: int| 0 <= j < i ==> names[j] != k,
        i < names.len() ==> names[i] == k,
    ensures
        i < names.len() ==> first_pos(names, k) == i,
        i == names.len() ==> first_pos(names, k) == -1,
    decreases names.len(),
{
    if names.len() > 0 {
        if i < names.len() - 1 {
            lemma_first_pos_scan(names.drop_last(), k, i);
            assert(names.drop_last()[i] == k);
        } else if i == names.len() - 1 {
            lemma_first_pos_scan(names.drop_last(), k, i);
            assert forall|j: int| 0 <= j < names.drop_last().len() implies names.drop_last()[j] != k by {
                assert(names.drop_last()[j] == names[j]);
            }
        } else {
            lemma_first_pos_scan(names.drop_last(), k, i - 1);
        }
    }
}

/// Appends an expression to the arena and returns its id, its position.
fn push_expr(exprs: &mut Vec<hir::Expr>, e: hir::Expr) -> (r: ExprId)
    ensures
        exprs_view(final(exprs)@) == exprs_view(old(exprs)@).push(e@),
        r.0 == old(exprs)@.len(),
{
    let id = exprs.len();
    let ghost ev = e@;
    exprs.push(e);
    assert(exprs_view(exprs@) =~= exprs_view(old(exprs)@).push(ev));
    ExprId(id)
}

impl Typeck {
    pub fn check(&mut self, prog: &ast::Program) -> (r: hir::Module)
        requires
            tc_items(old(self).ctx(), old(self).state(Seq::empty()), prog.items@) is Some,
        ensures
            final(self).ctx() == old(self).ctx(),
            ({
                let (s, fns) = tc_items(old(self).ctx(), old(self).state(Seq::empty()), prog.items@)->Some_0;
                final(self).state(r.exprs@) == s && r@.functions == fns
            }),
            module_wf(r@),
    {
        let ghost c = self.ctx();
        let mut exprs: Vec<hir::Expr> = Vec::new();
        let ghost s0 = self.state(exprs@);
        let mut functions: FxHashMap<FnId, hir::Block> = FxHashMap::default();
        let mut i: usize = 0;
        assert(prog.items@.take(0) =~= Seq::<ast::Item>::empty());
        assert(hir::fn_blocks_view(functions@) =~= Map::<FnId, hir::BlockView>::empty());
        while i < prog.items.len()
            invariant
                i <= prog.items@.len(),
                self.ctx() == c,
                tc_items(c, s0, prog.items@) is Some,
                tc_items(c, s0, prog.items@.take(i as int)) == Some((self.state(exprs@), hir::fn_blocks_view(functions@))),
            decreases prog.items@.len() - i,
        {
            proof {
                lemma_tc_items_prefix(c, s0, prog.items@, i + 1);
                assert(prog.items@.take(i + 1).drop_last() =~= prog.items@.take(i as int));
                assert(prog.items@.take(i + 1).last() == prog.items@[i as int]);
            }
            match &prog.items[i] {
                ast::Item::Function(func) => {
                    let id = *fx_get(&self.resolutions.fns, &func.id.untyped()).unwrap();
                    let block = self.check_function(&mut exprs, &func.value, id);
                    let ghost bv = block@;
                    let ghost old_fns = functions@;
                    fx_insert(&mut functions, id, block);
                    assert(hir::fn_blocks_view(functions@) =~= hir::fn_blocks_view(old_fns).insert(id, bv));
                },
                _ => {},
            }
            i = i + 1;
        }
        assert(prog.items@.take(prog.items@.len() as int) =~= prog.items@);
        proof {
            assert(s0.exprs =~= Seq::<hir::ExprView>::empty());
            law_checked_items_wf(c, s0, prog.items@);
        }
        hir::Module { functions, exprs }
    }

    fn check_function(&mut self, exprs: &mut Vec<hir::Expr>, func: &ast::Function, id: FnId) -> (r: hir::Block)
        requires
            tc_function(old(self).ctx(), old(self).state(old(exprs)@), *func, id) is Some,
        ensures
            final(self).ctx() == old(self).ctx(),
            ({
                let (s, hb) = tc_function(old(self).ctx(), old(self).state(old(exprs)@), *func, id)->Some_0;
                final(self).state(final(exprs)@) == s && r@ == hb
            }),
    {
        let ghost c = self.ctx();
        let ghost s0 = self.state(exprs@);
        let mut i: usize = 0;
        assert(func.args@.take(0) =~= Seq::<(Ident, ast::RType)>::empty());
        while i < func.args.len()
            invariant
                i <= func.args@.len(),
                self.ctx() == c,
                tc_args(c, s0, func.args@) is Some,
                tc_args(c, s0, func.args@.take(i as int)) == Some(self.state(exprs@)),
            decreases func.args@.len() - i,
        {
            proof {
                lemma_tc_args_prefix(c, s0, func.args@, i + 1);
                assert(func.args@.take(i + 1).drop_last() =~= func.args@.take(i as int));
                assert(func.args@.take(i + 1).last() == func.args@[i as int]);
            }
            let (name, ty) = &func.args[i];
            let var = match fx_get(&self.resolutions.vars, &name.id.untyped()).unwrap() {
                Either::Left(var) => *var,
                Either::Right(_) => {
                    proof {
                        assert(false);
                    }
                    VarId(0)
                },
            };
            let ty = copy_ty(fx_get(&self.resolutions.tys, &ty.id.untyped()).unwrap());
            self.bind(var, ty);
            i = i + 1;
        }
        assert(func.args@.take(func.args@.len() as int) =~= func.args@);
        let expected = copy_ty(&self.definitions.fns(id).ret);
        let expected2 = copy_ty(&expected);
        let (block, inferred) = self.check_block(exprs, &func.body.value, &expected);
        self.check_type(inferred, expected2, func.body.span());
        block
    }

    fn check_expr(&mut self, exprs: &mut Vec<hir::Expr>, expr: &ast::RExpr, ret_ty: &Ty) -> (r: (ExprId, Ty))
        requires
            tc_expr(old(self).ctx(), old(self).state(old(exprs)@), *expr, ret_ty@) is Some,
        ensures
            final(self).ctx() == old(self).ctx(),
            ({
                let (s, id, t) = tc_expr(old(self).ctx(), old(self).state(old(exprs)@), *expr, ret_ty@)->Some_0;
                final(self).state(final(exprs)@) == s && r.0 == id && r.1@ == t
            }),
        decreases expr,
    {
        let ghost c = self.ctx();
        let ghost st0 = self.state(exprs@);
        let r = match &*expr.value {
            ast::Expr::Literal(literal) => {
                let (literal, ty) = self.check_literal(literal);
                let id = push_expr(exprs, hir::Expr::Literal(literal));
                assert(tc_expr(c, st0, *expr, ret_ty@) == Some((self.state(exprs@), id, ty@)));
                (id, ty)
            },
            ast::Expr::Variable(node) => {
                let key = node.id.untyped();
                match fx_get(&self.resolutions.vars, &key).unwrap() {
                    Either::Left(var) => {
                        let ty = copy_ty(fx_get(&self.env, var).unwrap());
                        let id = push_expr(exprs, hir::Expr::Variable(*var));
                        assert(tc_expr(c, st0, *expr, ret_ty@) == Some((self.state(exprs@), id, ty@)));
                        (id, ty)
                    },
                    Either::Right(func) => {
                        let ty = self.definitions.fns(*func).signature();
                        let id = push_expr(exprs, hir::Expr::Function(*func));
                        assert(tc_expr(c, st0, *expr, ret_ty@) == Some((self.state(exprs@), id, ty@)));
                        (id, ty)
                    },
                }
            },
            ast::Expr::Grouping(node) => self.check_expr(exprs, node, ret_ty),
            ast::Expr::Binary { lhs, rhs, op } => {
                let (lhs_expr, lhs_ty) = self.check_expr(exprs, lhs, ret_ty);
                let (rhs_expr, rhs_ty) = self.check_expr(exprs, rhs, ret_ty);
                let ty = self.infer_binary(lhs_ty, rhs_ty, *op, expr.span());
                let id = push_expr(exprs, hir::Expr::Binary { lhs: lhs_expr, rhs: rhs_expr, op: *op });
                assert(tc_expr(c, st0, *expr, ret_ty@) == Some((self.state(exprs@), id, ty@)));
                (id, ty)
            },
            ast::Expr::Unary { rhs, op } => {
                let (rhs, ty) = self.check_expr(exprs, rhs, ret_ty);
                let ty = self.infer_unary(ty, *op, expr.span());
                let id = push_expr(exprs, hir::Expr::Unary { rhs, op: *op });
                assert(tc_expr(c, st0, *expr, ret_ty@) == Some((self.state(exprs@), id, ty@)));
                (id, ty)
            },
            ast::Expr::Field { lhs, name } => {
                let (lhs, ty) = self.check_expr(exprs, lhs, ret_ty);
                let ghost xs = exprs@;
                let ghost fuel = field_fuel(self.ctx(), self.state(xs), ty@, *name);
                let (index, field_ty) = self.check_field(ty, name, Ghost(xs), Ghost(fuel));
                let id = push_expr(exprs, hir::Expr::Field { lhs, index });
                assert(tc_expr(c, st0, *expr, ret_ty@) == Some((self.state(exprs@), id, field_ty@)));
                (id, field_ty)
            },
            ast::Expr::Call { lhs, args } => {
                let (func, ty) = self.check_expr(exprs, lhs, ret_ty);
                let ghost s1 = self.state(exprs@);
                assert(tc_expr(c, st0, *lhs, ret_ty@) == Some((s1, func, ty@)));
                let (ids, tys) = self.check_args(exprs, args, ret_ty);
                let ghost s2 = self.state(exprs@);
                assert(tc_exprs(c, s1, args@, ret_ty@) == Some((s2, ids@, tys_view(tys@))));
                let ret = self.check_call(ty, &tys, expr.span());
                let ghost s3 = self.state(exprs@);
                assert((s3, ret@) == check_call(s2, ty@, tys_view(tys@), expr.span));
                let args = ids;
                let id = push_expr(exprs, hir::Expr::Call { lhs: func, args });
                assert(tc_expr(c, st0, *expr, ret_ty@) == Some((self.state(exprs@), id, ret@)));
                (id, ret)
            },
            ast::Expr::MethodCall { .. } => {
                proof {
                    assert(false);
                }
                (ExprId(0), Ty::Unknown)
            },
            ast::Expr::Index { lhs, index } => {
                // note: indexing is only implemented for some primitive types, currently.
                // the idea is to eventually, once methods come into play and i settle on an
                // interface design, completly desugar to method calls
                let (lhs, lhs_ty) = self.check_expr(exprs, lhs, ret_ty);
                let (index, index_ty) = self.check_expr(exprs, index, ret_ty);
                let ret = self.check_index(lhs_ty, index_ty, expr.span());
                let id = push_expr(exprs, hir::Expr::Index { lhs, index });
                assert(tc_expr(c, st0, *expr, ret_ty@) == Some((self.state(exprs@), id, ret@)));
                (id, ret)
            },
            ast::Expr::Ref(node) => {
                let (e, ty) = self.check_expr(exprs, node, ret_ty);
                // referencing an expression that never yields also diverges
                let ty = if matches!(ty, Ty::Never) {
                    Ty::Never
                } else {
                    Ty::Pointer(Box::new(ty))
                };
                let id = push_expr(exprs, hir::Expr::Ref(e));
                assert(tc_expr(c, st0, *expr, ret_ty@) == Some((self.state(exprs@), id, ty@)));
                (id, ty)
            },
            ast::Expr::Deref(node) => {
                let (reference, ty) = self.check_expr(exprs, node, ret_ty);
                let ret = self.check_deref(ty, expr.span());
                let id = push_expr(exprs, hir::Expr::Deref(reference));
                assert(tc_expr(c, st0, *expr, ret_ty@) == Some((self.state(exprs@), id, ret@)));
                (id, ret)
            },
            ast::Expr::Block(block) => {
                let (block, ty) = self.check_block(exprs, &block.value, ret_ty);
                let id = push_expr(exprs, hir::Expr::Block(block));
                assert(tc_expr(c, st0, *expr, ret_ty@) == Some((self.state(exprs@), id, ty@)));
                (id, ty)
            },
        };
        assert(tc_expr(c, st0, *expr, ret_ty@) == Some((self.state(exprs@), r.0, r.1@)));
        r
    }

    /// Checks the arguments of a call in order.
    fn check_args(&mut self, exprs: &mut Vec<hir::Expr>, args: &Vec<ast::RExpr>, ret_ty: &Ty) -> (r: (Vec<ExprId>, Vec<Ty>))
        requires
            tc_exprs(old(self).ctx(), old(self).state(old(exprs)@), args@, ret_ty@) is Some,
        ensures
            final(self).ctx() == old(self).ctx(),
            ({
                let (s, ids, tys) = tc_exprs(old(self).ctx(), old(self).state(old(exprs)@), args@, ret_ty@)->Some_0;
                final(self).state(final(exprs)@) == s && r.0@ == ids && tys_view(r.1@) == tys
            }),
        decreases args,
    {
        let ghost c = self.ctx();
        let ghost s1 = self.state(exprs@);
        let mut ids: Vec<ExprId> = Vec::new();
        let mut tys: Vec<Ty> = Vec::new();
        let mut i: usize = 0;
        assert(args@.take(0) =~= Seq::<ast::RExpr>::empty());
        assert(tys_view(tys@) =~= Seq::<TyView>::empty());
        while i < args.len()
            invariant
                i <= args@.len(),
                self.ctx() == c,
                tc_exprs(c, s1, args@, ret_ty@) is Some,
                tc_exprs(c, s1, args@.take(i as int), ret_ty@) == Some((self.state(exprs@), ids@, tys_view(tys@))),
            decreases args@.len() - i,
        {
            proof {
                lemma_tc_exprs_prefix(c, s1, args@, ret_ty@, i + 1);
                assert(args@.take(i + 1).drop_last() =~= args@.take(i as int));
                assert(args@.take(i + 1).last() == args@[i as int]);
                assert(decreases_to!(*args => args[i as int]));
            }
            let (id, t) = self.check_expr(exprs, &args[i], ret_ty);
            let ghost old_tys = tys@;
            ids.push(id);
            tys.push(t);
            assert(tys@.drop_last() =~= old_tys);
            i = i + 1;
        }
        assert(args@.take(args@.len() as int) =~= args@);
        (ids, tys)
    }

    fn check_block(&mut self, exprs: &mut Vec<hir::Expr>, block: &ast::Block, ret_ty: &Ty) -> (r: (hir::Block, Ty))
        requires
            tc_block(old(self).ctx(), old(self).state(old(exprs)@), *block, ret_ty@) is Some,
        ensures
            final(self).ctx() == old(self).ctx(),
            ({
                let (s, hb, t) = tc_block(old(self).ctx(), old(self).state(old(exprs)@), *block, ret_ty@)->Some_0;
                final(self).state(final(exprs)@) == s && r.0@ == hb && r.1@ == t
            }),
        decreases block,
    {
        let ghost c = self.ctx();
        let ghost s0 = self.state(exprs@);
        let mut stmts: Vec<hir::Stmt> = Vec::new();
        // a block diverges if any of its statements does not fall through
        let mut diverges = false;
        let mut i: usize = 0;
        assert(block.stmts@.take(0) =~= Seq::<ast::RStmt>::empty());
        assert(hir::stmts_view(stmts@) =~= Seq::<hir::StmtView>::empty());
        while i < block.stmts.len()
            invariant
                i <= block.stmts@.len(),
                self.ctx() == c,
                tc_stmts(c, s0, block.stmts@, ret_ty@) is Some,
                tc_stmts(c, s0, block.stmts@.take(i as int), ret_ty@) == Some((self.state(exprs@), hir::stmts_view(stmts@), diverges)),
            decreases block.stmts@.len() - i,
        {
            proof {
                lemma_tc_stmts_prefix(c, s0, block.stmts@, ret_ty@, i + 1);
                assert(block.stmts@.take(i + 1).drop_last() =~= block.stmts@.take(i as int));
                assert(block.stmts@.take(i + 1).last() == block.stmts@[i as int]);
            }
            let (stmt, ty) = self.check_stmt(exprs, &block.stmts[i].value, ret_ty);
            diverges = diverges || matches!(ty, Ty::Never);
            let ghost old_stmts = stmts@;
            stmts.push(stmt);
            assert(stmts@.drop_last() =~= old_stmts);
            i = i + 1;
        }
        assert(block.stmts@.take(block.stmts@.len() as int) =~= block.stmts@);
        let tail = match &block.tail {
            Some(expr) => Some(self.check_expr(exprs, expr, ret_ty)),
            None => None,
        };
        match tail {
            Some((id, ty)) => {
                let ty = if diverges { Ty::Never } else { ty };
                (hir::Block { stmts, tail: Some(id) }, ty)
            },
            None => {
                let ty = if diverges { Ty::Never } else { Ty::Unit };
                (hir::Block { stmts, tail: None }, ty)
            },
        }
    }

    /// Checks a single statement, returning its hir node together with its
    /// type. The type is only meaningful for its divergence: `Ty::Never` means
    /// control does not fall through, everything else is normalised to
    /// `Ty::Unit`.
    fn check_stmt(&mut self, exprs: &mut Vec<hir::Expr>, stmt: &ast::Stmt, ret_ty: &Ty) -> (r: (hir::Stmt, Ty))
        requires
            tc_stmt(old(self).ctx(), old(self).state(old(exprs)@), *stmt, ret_ty@) is Some,
        ensures
            final(self).ctx() == old(self).ctx(),
            ({
                let (s, h, t) = tc_stmt(old(self).ctx(), old(self).state(old(exprs)@), *stmt, ret_ty@)->Some_0;
                final(self).state(final(exprs)@) == s && r.0@ == h && r.1@ == t
            }),
        decreases stmt,
    {
        match stmt {
            ast::Stmt::Expr(expr) => {
                let (expr, ty) = self.check_expr(exprs, expr, ret_ty);
                let diverges = matches!(ty, Ty::Never);
                (hir::Stmt::Expr(expr), if diverges { Ty::Never } else { Ty::Unit })
            },
            ast::Stmt::Let { name, ty, value } => {
                let id = match fx_get(&self.resolutions.vars, &name.id.untyped()).unwrap() {
                    Either::Left(id) => *id,
                    Either::Right(_) => {
                        proof {
                            assert(false);
                        }
                        VarId(0)
                    },
                };
                let value_span = value.span();
                let (expr, infered_ty) = self.check_expr(exprs, value, ret_ty);
                let diverges = matches!(infered_ty, Ty::Never);
                let ty = match ty {
                    Some(ty) => {
                        let expected_ty = copy_ty(fx_get(&self.resolutions.tys, &ty.id.untyped()).unwrap());
                        self.check_type(infered_ty, expected_ty, value_span)
                    },
                    None => infered_ty,
                };
                let ty2 = copy_ty(&ty);
                self.bind(id, ty2);
                (hir::Stmt::Let { name: id, ty, value: expr }, if diverges { Ty::Never } else { Ty::Unit })
            },
            ast::Stmt::Assign { place, value } => {
                let value_span = value.span();
                let (value, value_ty) = self.check_expr(exprs, value, ret_ty);
                let (place, place_ty) = self.check_expr(exprs, place, ret_ty);
                let diverges = matches!(value_ty, Ty::Never) || matches!(place_ty, Ty::Never);
                // the value must fit the place it is assigned to
                self.check_type(value_ty, place_ty, value_span);
                (hir::Stmt::Assign { place, value }, if diverges { Ty::Never } else { Ty::Unit })
            },
            // a `return` never falls through, so its type is `Never`
            ast::Stmt::Return { value } => {
                let value = match value {
                    Some(value) => {
                        let span = value.span();
                        let (expr, ty) = self.check_expr(exprs, value, ret_ty);
                        self.check_type(ty, copy_ty(ret_ty), span);
                        Some(expr)
                    },
                    None => None,
                };
                (hir::Stmt::Return { value }, Ty::Never)
            },
            ast::Stmt::Loop { body } => {
                let span = body.span();
                // a loop only falls through if it can be exited with a `break`;
                // otherwise it is an infinite loop of type `Never`
                let can_break = block_breaks(body);
                let (body, ty) = self.check_block(exprs, &body.value, ret_ty);
                self.check_type(ty, Ty::Unit, span);
                (hir::Stmt::Loop { body }, if can_break { Ty::Unit } else { Ty::Never })
            },
            ast::Stmt::Break { value } => {
                if value.is_some() {
                    // breaking out of loops with a value is not yet supported
                    proof {
                        assert(false);
                    }
                }
                (hir::Stmt::Break { value: None }, Ty::Never)
            },
            ast::Stmt::Continue => (hir::Stmt::Continue, Ty::Never),
            ast::Stmt::If { cond, then_block, else_block } => {
                let cond_span = cond.span();
                let then_span = then_block.span();

                let (cond, cond_ty) = self.check_expr(exprs, cond, ret_ty);
                let cond_diverges = matches!(cond_ty, Ty::Never);
                self.check_type(cond_ty, Ty::Builtin(BuiltinTy::Bool), cond_span);

                let (then_block, then_ty) = self.check_block(exprs, &then_block.value, ret_ty);
                let then_diverges = matches!(then_ty, Ty::Never);
                self.check_type(then_ty, Ty::Unit, then_span);

                let (else_block, else_diverges) = match else_block {
                    Some(block) => {
                        let span = block.span();
                        let (block, ty) = self.check_block(exprs, &block.value, ret_ty);
                        let diverges = matches!(ty, Ty::Never);
                        self.check_type(ty, Ty::Unit, span);
                        (Some(block), diverges)
                    },
                    None => (None, false),
                };

                // an `if` diverges only if its condition never yields or if
                // both branches always diverge
                let diverges = cond_diverges || (else_block.is_some() && then_diverges && else_diverges);
                (hir::Stmt::If { cond, then_block, else_block }, if diverges { Ty::Never } else { Ty::Unit })
            },
        }
    }
}

/// Whether a loop body contains a `break` that targets the loop it belongs to.
///
/// Nested loops are skipped because their `break`s target themselves. `break`
/// can also appear inside block expressions, so the scan descends into
/// expressions as well.
pub fn block_breaks(block: &ast::RBlock) -> (r: bool)
    ensures
        r == spec_block_breaks(*block.value),
    decreases block, 1nat,
{
    block_body_breaks(&block.value)
}

fn block_body_breaks(b: &ast::Block) -> (r: bool)
    ensures
        r == spec_block_breaks(*b),
    decreases b, 0nat,
{
    let mut i: usize = 0;
    assert(b.stmts@.take(0) =~= Seq::<ast::RStmt>::empty());
    while i < b.stmts.len()
        invariant
            i <= b.stmts@.len(),
            !spec_stmts_break(b.stmts@.take(i as int)),
        decreases b.stmts@.len() - i,
    {
        assert(b.stmts@.take(i + 1).drop_last() =~= b.stmts@.take(i as int));
        assert(b.stmts@.take(i + 1).last() == b.stmts@[i as int]);
        if stmt_breaks(&b.stmts[i].value) {
            proof {
                lemma_stmts_break_prefix(b.stmts@, i + 1);
            }
            return true;
        }
        i = i + 1;
    }
    assert(b.stmts@.take(b.stmts@.len() as int) =~= b.stmts@);
    match &b.tail {
        Some(expr) => expr_breaks(expr),
        None => false,
    }
}

proof fn lemma_stmts_break_prefix(s: Seq<ast::RStmt>, k: int)
    requires
        0 <= k <= s.len(),
        spec_stmts_break(s.take(k)),
    ensures
        spec_stmts_break(s),
    decreases s.len() - k,
{
    if k < s.len() {
        assert(s.take(k + 1).drop_last() =~= s.take(k));
        lemma_stmts_break_prefix(s, k + 1);
    } else {
        assert(s.take(k) =~= s);
    }
}

proof fn lemma_exprs_break_prefix(s: Seq<ast::RExpr>, k: int)
    requires
        0 <= k <= s.len(),
        spec_exprs_break(s.take(k)),
    ensures
        spec_exprs_break(s),
    decreases s.len() - k,
{
    if k < s.len() {
        assert(s.take(k + 1).drop_last() =~= s.take(k));
        lemma_exprs_break_prefix(s, k + 1);
    } else {
        assert(s.take(k) =~= s);
    }
}

pub fn stmt_breaks(stmt: &ast::Stmt) -> (r: bool)
    ensures
        r == spec_stmt_breaks(*stmt),
    decreases stmt, 1nat,
{
    match stmt {
        ast::Stmt::Break { .. } => true,
        ast::Stmt::Loop { .. } => false,
        ast::Stmt::Continue => false,
        ast::Stmt::Expr(expr) => expr_breaks(expr),
        ast::Stmt::Let { value, .. } => expr_breaks(value),
        ast::Stmt::Assign { place, value } => expr_breaks(place) || expr_breaks(value),
        ast::Stmt::Return { value } => match value {
            Some(value) => expr_breaks(value),
            None => false,
        },
        ast::Stmt::If { cond, then_block, else_block } => {
            expr_breaks(cond) || block_breaks(then_block) || match else_block {
                Some(block) => block_breaks(block),
                None => false,
            }
        },
    }
}

fn any_expr_breaks(args: &Vec<ast::RExpr>) -> (r: bool)
    ensures
        r == spec_exprs_break(args@),
    decreases args, 0nat,
{
    let mut i: usize = 0;
    assert(args@.take(0) =~= Seq::<ast::RExpr>::empty());
    while i < args.len()
        invariant
            i <= args@.len(),
            !spec_exprs_break(args@.take(i as int)),
        decreases args@.len() - i,
    {
        assert(args@.take(i + 1).drop_last() =~= args@.take(i as int));
        assert(args@.take(i + 1).last() == args@[i as int]);
        assert(decreases_to!(*args => args[i as int]));
        if expr_breaks(&args[i]) {
            proof {
                lemma_exprs_break_prefix(args@, i + 1);
            }
            return true;
        }
        i = i + 1;
    }
    assert(args@.take(args@.len() as int) =~= args@);
    false
}

pub fn expr_breaks(expr: &ast::RExpr) -> (r: bool)
    ensures
        r == spec_expr_breaks(*expr),
    decreases expr, 1nat,
{
    match &*expr.value {
        ast::Expr::Block(block) => block_breaks(block),
        ast::Expr::Grouping(node) => expr_breaks(node),
        ast::Expr::Binary { lhs, rhs, .. } => expr_breaks(lhs) || expr_breaks(rhs),
        ast::Expr::Unary { rhs, .. } => expr_breaks(rhs),
        ast::Expr::Field { lhs, .. } => expr_breaks(lhs),
        ast::Expr::Call { lhs, args } => expr_breaks(lhs) || any_expr_breaks(args),
        ast::Expr::MethodCall { lhs, args, .. } => expr_breaks(lhs) || any_expr_breaks(args),
        ast::Expr::Index { lhs, index } => expr_breaks(lhs) || expr_breaks(index),
        ast::Expr::Ref(node) => expr_breaks(node),
        ast::Expr::Deref(node) => expr_breaks(node),
        ast::Expr::Literal(_) => false,
        ast::Expr::Variable(_) => false,
    }
}

/// Whether `found` coerces to `expected`. `Never` is the bottom type and
/// therefore fits any expected type, and `Unknown` is treated as a wildcard so
/// that already-reported errors do not cascade.
pub fn fits(found: &Ty, expected: &Ty) -> (r: bool)
    ensures
        r == spec_fits(found@, expected@),
{
    matches!(found, Ty::Never | Ty::Unknown) || matches!(expected, Ty::Unknown) || ty_eq(found, expected)
}

pub fn is_integer(ty: &Ty) -> (r: bool)
    ensures
        r == spec_is_integer(ty@),
{
    matches!(
        ty,
        Ty::Builtin(
            BuiltinTy::I8
                | BuiltinTy::I16
                | BuiltinTy::I32
                | BuiltinTy::I64
                | BuiltinTy::U8
                | BuiltinTy::U16
                | BuiltinTy::U32
                | BuiltinTy::U64
        )
    )
}

pub fn is_signed_integer(ty: &Ty) -> (r: bool)
    ensures
        r == spec_is_signed_integer(ty@),
{
    matches!(ty, Ty::Builtin(BuiltinTy::I8 | BuiltinTy::I16 | BuiltinTy::I32 | BuiltinTy::I64))
}

pub fn is_float(ty: &Ty) -> (r: bool)
    ensures
        r == spec_is_float(ty@),
{
    matches!(ty, Ty::Builtin(BuiltinTy::F32 | BuiltinTy::F64))
}

pub fn is_numeric(ty: &Ty) -> (r: bool)
    ensures
        r == spec_is_numeric(ty@),
{
    is_integer(ty) || is_float(ty)
}

pub fn is_equatable(ty: &Ty) -> (r: bool)
    ensures
        r == spec_is_equatable(ty@),
{
    matches!(ty, Ty::Builtin(_) | Ty::Pointer(_) | Ty::Unit)
}

pub fn is_ordered(ty: &Ty) -> (r: bool)
    ensures
        r == spec_is_ordered(ty@),
{
    is_numeric(ty) || matches!(ty, Ty::Builtin(BuiltinTy::Char | BuiltinTy::String))
}

} // verus!
