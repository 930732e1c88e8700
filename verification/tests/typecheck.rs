use chumsky::span::SimpleSpan;
use string_interner::DefaultStringInterner;

use genc::semantic::ast::{
    BinOp, Block, DataDef, Expr, Function, Item, Program, RBlock, RExpr, RStmt, Stmt, Type, TypeDef, Visibility,
};
use genc::semantic::nameres::{BuiltinTy, Env, FnId, Ty, TyId};
use genc::semantic::typeck::hir;
use genc::semantic::node::{FileId, Id, Node};
use genc::semantic::parser::token::Literal;
use genc::semantic::typeck::{
    block_breaks, expr_breaks, fits, is_equatable, is_float, is_integer, is_numeric, is_ordered,
    is_signed_integer, stmt_breaks, TypeError, Typeck,
};

struct Builder {
    next: usize,
    names: DefaultStringInterner,
}

impl Builder {
    fn new() -> Self {
        Builder { next: 0, names: DefaultStringInterner::default() }
    }

    fn node<T>(&mut self, value: T, lo: usize) -> Node<T> {
        self.next += 1;
        Node::new(value, span(lo), Id::new(self.next, FileId::new(0)))
    }

    fn var(&mut self, s: &str, lo: usize) -> RExpr {
        let sym = self.names.get_or_intern(s);
        let name = self.node(sym, lo);
        self.node(Box::new(Expr::Variable(name)), lo)
    }

    fn lit(&mut self, l: Literal, lo: usize) -> RExpr {
        self.node(Box::new(Expr::Literal(l)), lo)
    }

    fn binary(&mut self, lhs: RExpr, op: BinOp, rhs: RExpr, lo: usize) -> RExpr {
        self.node(Box::new(Expr::Binary { lhs, rhs, op }), lo)
    }

    fn stmt(&mut self, s: Stmt, lo: usize) -> RStmt {
        self.node(Box::new(s), lo)
    }

    fn let_stmt(&mut self, name: &str, value: RExpr, lo: usize) -> RStmt {
        let sym = self.names.get_or_intern(name);
        let name = self.node(sym, lo);
        self.stmt(Stmt::Let { name, ty: None, value }, lo)
    }

    fn block(&mut self, stmts: Vec<RStmt>, tail: Option<RExpr>, lo: usize) -> RBlock {
        self.node(Box::new(Block { items: vec![], stmts, tail }), lo)
    }

    fn named(&mut self, s: &str, lo: usize) -> genc::semantic::ast::RType {
        let sym = self.names.get_or_intern(s);
        let name = self.node(sym, lo);
        self.node(Box::new(Type::Named(name)), lo)
    }

    fn field(&mut self, lhs: RExpr, name: &str, lo: usize) -> RExpr {
        let sym = self.names.get_or_intern(name);
        let name = self.node(sym, lo);
        self.node(Box::new(Expr::Field { lhs, name }), lo)
    }

    fn data(&mut self, name: &str, fields: &[(&str, &str)], lo: usize) -> Item {
        let sym = self.names.get_or_intern(name);
        let name = self.node(sym, lo);
        let fields = fields
            .iter()
            .map(|(f, t)| {
                let fs = self.names.get_or_intern(f);
                (self.node(fs, lo), self.named(t, lo))
            })
            .collect();
        Item::TypeDef(TypeDef::Data(self.node(Box::new(DataDef { vis: Visibility::Pub, name, fields }), lo)))
    }

    /// A function without arguments whose return type names no type.
    fn function(&mut self, name: &str, body: RBlock, lo: usize) -> Item {
        let sym = self.names.get_or_intern(name);
        let name = self.node(sym, lo);
        let r = self.names.get_or_intern("R");
        let r = self.node(r, lo);
        let ret = self.node(Box::new(Type::Named(r)), lo);
        Item::Function(self.node(Box::new(Function { vis: Visibility::Pub, name, args: vec![], ret, body }), lo))
    }
}

fn span(lo: usize) -> SimpleSpan {
    SimpleSpan::from(lo..lo + 1)
}

fn i32_ty() -> Ty {
    Ty::Builtin(BuiltinTy::I32)
}

fn check(prog: &Program) -> (Typeck, genc::semantic::typeck::hir::Module) {
    let mut env = Env::new();
    env.resolve(prog);
    let (defs, res, _) = env.into_parts();
    let mut tc = Typeck::new(res, defs);
    let module = tc.check(prog);
    (tc, module)
}

#[test]
fn well_typed_arithmetic_has_no_errors() {
    let mut b = Builder::new();
    let one = b.lit(Literal::Int(1), 3);
    let let_x = b.let_stmt("x", one, 2);
    let x = b.var("x", 5);
    let two = b.lit(Literal::Int(2), 7);
    let sum = b.binary(x, BinOp::Add, two, 6);
    let s = b.stmt(Stmt::Expr(sum), 6);
    let body = b.block(vec![let_x, s], None, 1);
    let prog = Program { items: vec![b.function("f", body, 0)] };
    let (tc, module) = check(&prog);
    assert!(tc.diagnostics().errors().is_empty());
    assert_eq!(module.functions.len(), 1);
    assert_eq!(module.functions.get(&FnId(0)).map(|blk| blk.stmts.len()), Some(2));
    // literal 1, variable x, literal 2 and the sum, which refers to the two
    // expressions before it
    assert_eq!(module.exprs.len(), 4);
    assert!(matches!(
        &module.exprs[3],
        hir::Expr::Binary { lhs, rhs, op: BinOp::Add } if lhs.0 == 1 && rhs.0 == 2
    ));
    let body = module.functions.get(&FnId(0)).unwrap();
    assert!(matches!(&body.stmts[1], hir::Stmt::Expr(id) if id.0 == 3));
}

#[test]
fn arithmetic_on_a_bool_is_invalid() {
    let mut b = Builder::new();
    let one = b.lit(Literal::Int(1), 3);
    let let_x = b.let_stmt("x", one, 2);
    let t = b.lit(Literal::Bool(true), 5);
    let let_y = b.let_stmt("y", t, 4);
    let x = b.var("x", 7);
    let y = b.var("y", 9);
    let sum = b.binary(x, BinOp::Add, y, 8);
    let s = b.stmt(Stmt::Expr(sum), 8);
    let body = b.block(vec![let_x, let_y, s], None, 1);
    let prog = Program { items: vec![b.function("f", body, 0)] };
    let (tc, _) = check(&prog);
    let errors = tc.diagnostics().errors();
    assert_eq!(errors.len(), 1);
    assert!(matches!(
        &errors[0],
        TypeError::InvalidBinaryOperands { span: s, op: BinOp::Add, lhs, rhs }
            if *s == span(8) && *lhs == i32_ty() && *rhs == Ty::Builtin(BuiltinTy::Bool)
    ));
}

#[test]
fn comparing_different_ordered_types_is_a_mismatch() {
    let mut b = Builder::new();
    let c = b.lit(Literal::Char('a'), 3);
    let let_c = b.let_stmt("c", c, 2);
    let cv = b.var("c", 5);
    let one = b.lit(Literal::Int(1), 7);
    let cmp = b.binary(cv, BinOp::Lt, one, 6);
    let s = b.stmt(Stmt::Expr(cmp), 6);
    let body = b.block(vec![let_c, s], None, 1);
    let prog = Program { items: vec![b.function("f", body, 0)] };
    let (tc, _) = check(&prog);
    let errors = tc.diagnostics().errors();
    assert_eq!(errors.len(), 1);
    assert!(matches!(
        &errors[0],
        TypeError::MismatchedBinaryOperands { span: s, op: BinOp::Lt, lhs, rhs }
            if *s == span(6) && *lhs == Ty::Builtin(BuiltinTy::Char) && *rhs == i32_ty()
    ));
}

#[test]
fn fits_follows_never_and_unknown() {
    let bool_ty = Ty::Builtin(BuiltinTy::Bool);
    assert!(fits(&i32_ty(), &i32_ty()));
    assert!(!fits(&i32_ty(), &bool_ty));
    assert!(fits(&Ty::Never, &bool_ty));
    assert!(fits(&Ty::Unknown, &bool_ty));
    assert!(fits(&bool_ty, &Ty::Unknown));
    assert!(!fits(&bool_ty, &Ty::Never));
    let p = Ty::Pointer(Box::new(i32_ty()));
    assert!(fits(&p, &Ty::Pointer(Box::new(i32_ty()))));
    assert!(!fits(&p, &Ty::Array(Box::new(i32_ty()))));
}

#[test]
fn classes_of_builtin_types() {
    let u8_ty = Ty::Builtin(BuiltinTy::U8);
    let f64_ty = Ty::Builtin(BuiltinTy::F64);
    let char_ty = Ty::Builtin(BuiltinTy::Char);
    let string_ty = Ty::Builtin(BuiltinTy::String);
    let bool_ty = Ty::Builtin(BuiltinTy::Bool);
    assert!(is_integer(&u8_ty) && !is_signed_integer(&u8_ty));
    assert!(is_integer(&i32_ty()) && is_signed_integer(&i32_ty()));
    assert!(!is_integer(&f64_ty) && is_float(&f64_ty) && is_numeric(&f64_ty));
    assert!(!is_numeric(&char_ty) && is_ordered(&char_ty) && is_ordered(&string_ty));
    assert!(!is_ordered(&bool_ty) && is_equatable(&bool_ty));
    assert!(is_equatable(&Ty::Unit) && is_equatable(&Ty::Pointer(Box::new(bool_ty))));
    assert!(!is_equatable(&Ty::Array(Box::new(u8_ty))) && !is_equatable(&Ty::Unknown));
}

#[test]
fn break_counts_only_for_its_own_loop() {
    let mut b = Builder::new();
    // `break` directly in the body breaks the loop
    let brk = b.stmt(Stmt::Break { value: None }, 1);
    assert!(stmt_breaks(&brk.value));
    // a `break` inside a nested loop does not
    let inner_brk = b.stmt(Stmt::Break { value: None }, 3);
    let inner_body = b.block(vec![inner_brk], None, 2);
    let nested = b.stmt(Stmt::Loop { body: inner_body }, 2);
    assert!(!stmt_breaks(&nested.value));
    // a `break` inside an `if` inside a block expression does
    let if_brk = b.stmt(Stmt::Break { value: None }, 6);
    let then_block = b.block(vec![if_brk], None, 5);
    let cond = b.lit(Literal::Bool(true), 4);
    let if_stmt = b.stmt(Stmt::If { cond, then_block, else_block: None }, 4);
    let blk = b.block(vec![if_stmt], None, 4);
    assert!(block_breaks(&blk));
    let blk_expr = b.node(Box::new(Expr::Block(blk)), 4);
    assert!(expr_breaks(&blk_expr));
    let lit = b.lit(Literal::Int(0), 9);
    assert!(!expr_breaks(&lit));
}

#[test]
fn field_access_finds_the_field_by_name() {
    let mut b = Builder::new();
    let s_def = b.data("S", &[("x", "S"), ("y", "S")], 0);
    // fn f() -> R { let s: S = { return; }; s.y; s.z; }
    let ret = b.stmt(Stmt::Return { value: None }, 3);
    let diverging = b.block(vec![ret], None, 3);
    let value = b.node(Box::new(Expr::Block(diverging)), 3);
    let s_ty = b.named("S", 2);
    let s_sym = b.names.get_or_intern("s");
    let s_name = b.node(s_sym, 2);
    let let_s = b.stmt(Stmt::Let { name: s_name, ty: Some(s_ty), value }, 2);
    let s1 = b.var("s", 5);
    let y = b.field(s1, "y", 6);
    let st1 = b.stmt(Stmt::Expr(y), 5);
    let s2 = b.var("s", 8);
    let z = b.field(s2, "z", 9);
    let st2 = b.stmt(Stmt::Expr(z), 8);
    let body = b.block(vec![let_s, st1, st2], None, 1);
    let prog = Program { items: vec![s_def, b.function("f", body, 1)] };
    let (tc, module) = check(&prog);
    let errors = tc.diagnostics().errors();
    assert_eq!(errors.len(), 1);
    assert!(matches!(
        &errors[0],
        TypeError::UnknownField { ty, field } if *ty == Ty::Custom(TyId(0)) && *field == span(9)
    ));
    let indices: Vec<usize> = module
        .exprs
        .iter()
        .filter_map(|e| match e {
            hir::Expr::Field { index, .. } => Some(*index),
            _ => None,
        })
        .collect();
    // `y` is the second field; an unknown field gets the number of fields
    assert_eq!(indices, vec![1, 2]);
}
