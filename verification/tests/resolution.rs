use chumsky::span::SimpleSpan;
use string_interner::{DefaultStringInterner, DefaultSymbol};

use genc::semantic::ast::{
    Alias, Block, DataDef, EnumDef, Expr, Function, Ident, Item, Program, RBlock, RExpr, RStmt,
    RType, Stmt, Type, TypeDef, Visibility,
};
use genc::semantic::nameres::{Env, FnId, ResolutionError, Ty, TyDef, TyId, VarDef, VarId};
use genc::semantic::node::{FileId, Id, Node, NodeId};
use genc::semantic::parser::token::Literal;
use genc::semantic::parser::tree::Either;

/// Builds syntax trees with distinct node ids and interned names.
struct Builder {
    next: usize,
    names: DefaultStringInterner,
}

impl Builder {
    fn new() -> Self {
        Builder { next: 0, names: DefaultStringInterner::default() }
    }

    fn sym(&mut self, s: &str) -> DefaultSymbol {
        self.names.get_or_intern(s)
    }

    fn node<T>(&mut self, value: T, lo: usize) -> Node<T> {
        self.next += 1;
        Node::new(value, span(lo), Id::new(self.next, FileId::new(0)))
    }

    fn ident(&mut self, s: &str, lo: usize) -> Ident {
        let sym = self.sym(s);
        self.node(sym, lo)
    }

    fn named(&mut self, s: &str, lo: usize) -> RType {
        let name = self.ident(s, lo);
        self.node(Box::new(Type::Named(name)), lo)
    }

    fn var(&mut self, s: &str, lo: usize) -> RExpr {
        let name = self.ident(s, lo);
        self.node(Box::new(Expr::Variable(name)), lo)
    }

    fn int_lit(&mut self, v: u64, lo: usize) -> RExpr {
        self.node(Box::new(Expr::Literal(Literal::Int(v))), lo)
    }

    fn stmt(&mut self, s: Stmt, lo: usize) -> RStmt {
        self.node(Box::new(s), lo)
    }

    fn expr_stmt(&mut self, e: RExpr, lo: usize) -> RStmt {
        self.stmt(Stmt::Expr(e), lo)
    }

    fn let_stmt(&mut self, name: &str, value: RExpr, lo: usize) -> RStmt {
        let name = self.ident(name, lo);
        self.stmt(Stmt::Let { name, ty: None, value }, lo)
    }

    fn block(&mut self, items: Vec<Item>, stmts: Vec<RStmt>, tail: Option<RExpr>, lo: usize) -> RBlock {
        self.node(Box::new(Block { items, stmts, tail }), lo)
    }

    fn block_expr(&mut self, b: RBlock, lo: usize) -> RExpr {
        self.node(Box::new(Expr::Block(b)), lo)
    }

    fn function(&mut self, name: &str, args: Vec<(Ident, RType)>, ret: RType, body: RBlock, lo: usize) -> Item {
        let name = self.ident(name, lo);
        Item::Function(self.node(Box::new(Function { vis: Visibility::Pub, name, args, ret, body }), lo))
    }

    fn data(&mut self, name: &str, fields: Vec<(Ident, RType)>, lo: usize) -> Item {
        let name = self.ident(name, lo);
        Item::TypeDef(TypeDef::Data(self.node(Box::new(DataDef { vis: Visibility::Pub, name, fields }), lo)))
    }

    fn enumeration(&mut self, name: &str, variants: &[(&str, usize)], lo: usize) -> Item {
        let name = self.ident(name, lo);
        let variants = variants.iter().map(|(v, at)| self.ident(v, *at)).collect();
        Item::TypeDef(TypeDef::Enum(self.node(Box::new(EnumDef { vis: Visibility::Pub, name, variants }), lo)))
    }

    fn alias(&mut self, name: &str, ty: RType, lo: usize) -> Item {
        let name = self.ident(name, lo);
        Item::Alias(self.node(Box::new(Alias { vis: Visibility::Pub, name, ty }), lo))
    }
}

fn span(lo: usize) -> SimpleSpan {
    SimpleSpan::from(lo..lo + 1)
}

fn resolve(items: Vec<Item>) -> (Env, Program) {
    let prog = Program { items };
    let mut env = Env::new();
    env.resolve(&prog);
    (env, prog)
}

fn node_of<T>(n: &Node<T>) -> NodeId {
    n.id().untyped()
}

/// The node of the name that a variable expression uses.
fn name_node(e: &RExpr) -> NodeId {
    match &*e.value {
        Expr::Variable(name) => name.id().untyped(),
        _ => panic!("not a variable"),
    }
}

fn errors(env: &Env) -> &Vec<ResolutionError> {
    env.diagnostics().errors()
}

#[test]
fn empty_program_resolves_to_nothing() {
    let (env, _) = resolve(vec![]);
    assert!(errors(&env).is_empty());
    assert!(env.resolutions().tys.is_empty());
    assert!(env.resolutions().fns.is_empty());
    assert!(env.resolutions().vars.is_empty());
}

#[test]
fn duplicate_type_definition_is_reported_with_both_spans() {
    let mut b = Builder::new();
    let first = b.data("A", vec![], 10);
    let second = b.enumeration("A", &[], 20);
    let a = b.sym("A");
    let (env, _) = resolve(vec![first, second]);
    assert_eq!(
        errors(&env),
        &vec![ResolutionError::DuplicateTypeDefinition { symbol: a, original: Some(span(10)), duplicate: span(20) }]
    );
    // both declarations got an id, and both ids are defined
    assert!(matches!(env.definitions().tys(TyId(0)), TyDef::Struct { fields } if fields.is_empty()));
    assert!(matches!(env.definitions().tys(TyId(1)), TyDef::Enum { variants } if variants.is_empty()));
}

#[test]
fn alias_clashing_with_struct_is_a_duplicate_type() {
    let mut b = Builder::new();
    let s = b.data("T", vec![], 1);
    let target = b.named("T", 5);
    let alias = b.alias("T", target, 3);
    let t = b.sym("T");
    let (env, _) = resolve(vec![s, alias]);
    assert_eq!(
        errors(&env),
        &vec![ResolutionError::DuplicateTypeDefinition { symbol: t, original: Some(span(1)), duplicate: span(3) }]
    );
    // the alias names the type that the name was bound to first
    assert!(matches!(env.definitions().tys(TyId(1)), TyDef::Alias(Ty::Custom(TyId(0)))));
}

#[test]
fn duplicate_function_definition_is_reported() {
    let mut b = Builder::new();
    let r1 = b.named("R", 2);
    let body1 = b.block(vec![], vec![], None, 3);
    let f1 = b.function("f", vec![], r1, body1, 1);
    let r2 = b.named("R", 12);
    let body2 = b.block(vec![], vec![], None, 13);
    let f2 = b.function("f", vec![], r2, body2, 11);
    let f = b.sym("f");
    let r = b.sym("R");
    let (env, _) = resolve(vec![f1, f2]);
    assert_eq!(
        errors(&env),
        &vec![
            ResolutionError::DuplicateFunctionDefinition { symbol: f, original: span(1), duplicate: span(11) },
            ResolutionError::UnknownType { span: span(2), name: r },
            ResolutionError::UnknownType { span: span(12), name: r },
        ]
    );
    assert_eq!(env.definitions().fn_span(FnId(0)), span(1));
    assert_eq!(env.definitions().fn_span(FnId(1)), span(11));
}

#[test]
fn unknown_type_is_reported_and_resolves_to_unknown() {
    let mut b = Builder::new();
    let x = b.ident("x", 2);
    let foo = b.named("Foo", 4);
    let foo_node = node_of(&foo);
    let s = b.data("S", vec![(x, foo)], 1);
    let foo_sym = b.sym("Foo");
    let x_sym = b.sym("x");
    let (env, _) = resolve(vec![s]);
    assert_eq!(errors(&env), &vec![ResolutionError::UnknownType { span: span(4), name: foo_sym }]);
    assert_eq!(env.resolutions().tys.get(&foo_node), Some(&Ty::Unknown));
    match env.definitions().tys(TyId(0)) {
        TyDef::Struct { fields } => assert_eq!(fields, &vec![(x_sym, Ty::Unknown)]),
        _ => panic!("a struct defines a struct"),
    }
}

#[test]
fn types_can_be_used_before_their_definition() {
    let mut b = Builder::new();
    let field = b.ident("b", 2);
    let later = b.named("B", 3);
    let later_node = node_of(&later);
    let a = b.data("A", vec![(field, later)], 1);
    let bdef = b.data("B", vec![], 10);
    let (env, _) = resolve(vec![a, bdef]);
    assert!(errors(&env).is_empty());
    assert_eq!(env.resolutions().tys.get(&later_node), Some(&Ty::Custom(TyId(1))));
}

#[test]
fn compound_types_resolve_inside_out_and_report_in_order() {
    let mut b = Builder::new();
    let s = b.data("S", vec![], 1);
    // F = fn(S, Y) -> X, where X and Y are unknown
    let ret = b.named("X", 5);
    let p1 = b.named("S", 6);
    let p2 = b.named("Y", 7);
    let fn_ty = b.node(Box::new(Type::Fn(ret, vec![p1, p2])), 4);
    let fn_node = node_of(&fn_ty);
    let f_alias = b.alias("F", fn_ty, 3);
    // P = *S
    let inner = b.named("S", 11);
    let ptr = b.node(Box::new(Type::Pointer(inner)), 10);
    let p_alias = b.alias("P", ptr, 9);
    let x = b.sym("X");
    let y = b.sym("Y");
    let (env, _) = resolve(vec![s, f_alias, p_alias]);
    assert_eq!(
        errors(&env),
        &vec![
            ResolutionError::UnknownType { span: span(5), name: x },
            ResolutionError::UnknownType { span: span(7), name: y },
        ]
    );
    let expected = Ty::Fn(Box::new(Ty::Unknown), vec![Ty::Custom(TyId(0)), Ty::Unknown]);
    assert_eq!(env.resolutions().tys.get(&fn_node), Some(&expected));
    assert!(matches!(env.definitions().tys(TyId(2)), TyDef::Alias(Ty::Pointer(t)) if **t == Ty::Custom(TyId(0))));
}

#[test]
fn repeated_enum_variants_are_reported_and_kept_once() {
    let mut b = Builder::new();
    let e = b.enumeration("E", &[("A", 2), ("B", 3), ("A", 4), ("B", 5), ("C", 6)], 1);
    let a = b.sym("A");
    let bb = b.sym("B");
    let c = b.sym("C");
    let (env, _) = resolve(vec![e]);
    assert_eq!(
        errors(&env),
        &vec![
            ResolutionError::DuplicateVariantDefinition { symbol: a, original: span(2), duplicate: span(4) },
            ResolutionError::DuplicateVariantDefinition { symbol: bb, original: span(3), duplicate: span(5) },
        ]
    );
    match env.definitions().tys(TyId(0)) {
        TyDef::Enum { variants } => assert_eq!(&**variants, &[a, bb, c][..]),
        _ => panic!("an enum defines an enum"),
    }
}

#[test]
fn repeated_struct_field_is_reported_and_its_type_not_resolved() {
    let mut b = Builder::new();
    let x1 = b.ident("x", 2);
    let t1 = b.named("T1", 3);
    let y = b.ident("y", 4);
    let t2 = b.named("T2", 5);
    let x2 = b.ident("x", 6);
    let t3 = b.named("T3", 7);
    let t3_node = node_of(&t3);
    let s = b.data("S", vec![(x1, t1), (y, t2), (x2, t3)], 1);
    let x = b.sym("x");
    let ys = b.sym("y");
    let t1s = b.sym("T1");
    let t2s = b.sym("T2");
    let (env, _) = resolve(vec![s]);
    assert_eq!(
        errors(&env),
        &vec![
            ResolutionError::DuplicateFieldDefinition { symbol: x, original: span(2), duplicate: span(6) },
            ResolutionError::UnknownType { span: span(3), name: t1s },
            ResolutionError::UnknownType { span: span(5), name: t2s },
        ]
    );
    assert_eq!(env.resolutions().tys.get(&t3_node), None);
    match env.definitions().tys(TyId(0)) {
        TyDef::Struct { fields } => assert_eq!(fields, &vec![(x, Ty::Unknown), (ys, Ty::Unknown)]),
        _ => panic!("a struct defines a struct"),
    }
}

#[test]
fn function_signature_is_defined_and_recorded() {
    let mut b = Builder::new();
    let sa = b.data("A", vec![], 1);
    let sb = b.data("B", vec![], 2);
    let a = b.ident("a", 4);
    let ta = b.named("A", 5);
    let bb = b.ident("b", 6);
    let tb = b.named("B", 7);
    let ret = b.named("A", 8);
    let body = b.block(vec![], vec![], None, 9);
    let f = b.function("f", vec![(a, ta), (bb, tb)], ret, body, 3);
    let f_node = match &f {
        Item::Function(func) => node_of(func),
        _ => unreachable!(),
    };
    let a_sym = b.sym("a");
    let b_sym = b.sym("b");
    let (env, _) = resolve(vec![sa, sb, f]);
    assert!(errors(&env).is_empty());
    assert_eq!(env.resolutions().fns.get(&f_node), Some(&FnId(0)));
    let def = env.definitions().fns(FnId(0));
    assert_eq!(&*def.args, &[(a_sym, Ty::Custom(TyId(0))), (b_sym, Ty::Custom(TyId(1)))][..]);
    assert_eq!(def.ret, Ty::Custom(TyId(0)));
    assert_eq!(def.signature(), Ty::Fn(Box::new(Ty::Custom(TyId(0))), vec![Ty::Custom(TyId(0)), Ty::Custom(TyId(1))]));
    // the arguments became variables of the function
    assert_eq!(env.definitions().vars(VarId(0)), &VarDef::Arg);
    assert_eq!(env.definitions().vars(VarId(1)), &VarDef::Arg);
}

#[test]
fn argument_types_are_resolved_twice() {
    let mut b = Builder::new();
    let a = b.ident("a", 2);
    let t = b.named("T", 3);
    let ret = b.named("T", 4);
    let use_a = b.var("a", 6);
    let use_node = name_node(&use_a);
    let s = b.expr_stmt(use_a, 6);
    let body = b.block(vec![], vec![s], None, 5);
    let f = b.function("f", vec![(a, t)], ret, body, 1);
    let ts = b.sym("T");
    let (env, _) = resolve(vec![f]);
    assert_eq!(
        errors(&env),
        &vec![
            ResolutionError::UnknownType { span: span(3), name: ts },
            ResolutionError::UnknownType { span: span(4), name: ts },
            ResolutionError::UnknownType { span: span(3), name: ts },
        ]
    );
    assert_eq!(env.resolutions().vars.get(&use_node), Some(&Either::Left(VarId(0))));
}

#[test]
fn let_binding_introduces_a_local_variable() {
    let mut b = Builder::new();
    let one = b.int_lit(1, 3);
    let let_x = b.let_stmt("x", one, 2);
    let let_node = match &*let_x.value {
        Stmt::Let { name, .. } => node_of(name),
        _ => unreachable!(),
    };
    let use_x = b.var("x", 5);
    let use_node = name_node(&use_x);
    let s = b.expr_stmt(use_x, 5);
    let ret = b.named("R", 1);
    let body = b.block(vec![], vec![let_x, s], None, 2);
    let f = b.function("f", vec![], ret, body, 0);
    let (env, _) = resolve(vec![f]);
    assert_eq!(env.resolutions().vars.get(&let_node), Some(&Either::Left(VarId(0))));
    assert_eq!(env.resolutions().vars.get(&use_node), Some(&Either::Left(VarId(0))));
    assert_eq!(env.definitions().vars(VarId(0)), &VarDef::Local);
    assert_eq!(env.definitions().var_span(VarId(0)), span(2));
}

#[test]
fn later_let_shadows_earlier_one() {
    let mut b = Builder::new();
    let one = b.int_lit(1, 3);
    let first = b.let_stmt("x", one, 2);
    let two = b.int_lit(2, 5);
    let second = b.let_stmt("x", two, 4);
    let use_x = b.var("x", 7);
    let use_node = name_node(&use_x);
    let ret = b.named("R", 1);
    let body = b.block(vec![], vec![first, second], Some(use_x), 2);
    let f = b.function("f", vec![], ret, body, 0);
    let (env, _) = resolve(vec![f]);
    assert_eq!(env.resolutions().vars.get(&use_node), Some(&Either::Left(VarId(1))));
}

#[test]
fn name_of_a_function_resolves_to_the_function() {
    let mut b = Builder::new();
    let use_g = b.var("g", 4);
    let use_node = name_node(&use_g);
    let s = b.expr_stmt(use_g, 4);
    let r1 = b.named("R", 1);
    let body1 = b.block(vec![], vec![s], None, 3);
    let f = b.function("f", vec![], r1, body1, 0);
    let r2 = b.named("R", 11);
    let body2 = b.block(vec![], vec![], None, 12);
    let g = b.function("g", vec![], r2, body2, 10);
    let (env, _) = resolve(vec![f, g]);
    assert_eq!(env.resolutions().vars.get(&use_node), Some(&Either::Right(FnId(1))));
}

#[test]
fn unknown_name_is_reported() {
    let mut b = Builder::new();
    let use_y = b.var("y", 4);
    let use_node = name_node(&use_y);
    let s = b.expr_stmt(use_y, 4);
    let ret = b.named("R", 1);
    let body = b.block(vec![], vec![s], None, 3);
    let f = b.function("f", vec![], ret, body, 0);
    let y = b.sym("y");
    let r = b.sym("R");
    let (env, _) = resolve(vec![f]);
    assert_eq!(
        errors(&env),
        &vec![
            ResolutionError::UnknownType { span: span(1), name: r },
            ResolutionError::UnknownName { span: span(4), name: y },
        ]
    );
    assert_eq!(env.resolutions().vars.get(&use_node), None);
}

#[test]
fn block_sees_variables_of_enclosing_scope() {
    let mut b = Builder::new();
    let one = b.int_lit(1, 3);
    let let_x = b.let_stmt("x", one, 2);
    let use_x = b.var("x", 6);
    let use_node = name_node(&use_x);
    let inner = b.block(vec![], vec![], Some(use_x), 5);
    let inner_expr = b.block_expr(inner, 5);
    let s = b.expr_stmt(inner_expr, 5);
    let ret = b.named("R", 1);
    let body = b.block(vec![], vec![let_x, s], None, 2);
    let f = b.function("f", vec![], ret, body, 0);
    let (env, _) = resolve(vec![f]);
    assert_eq!(env.resolutions().vars.get(&use_node), Some(&Either::Left(VarId(0))));
}

#[test]
fn variable_of_inner_block_is_not_visible_after_it() {
    let mut b = Builder::new();
    let one = b.int_lit(1, 3);
    let let_x = b.let_stmt("x", one, 3);
    let inner = b.block(vec![], vec![let_x], None, 2);
    let inner_expr = b.block_expr(inner, 2);
    let s1 = b.expr_stmt(inner_expr, 2);
    let use_x = b.var("x", 8);
    let s2 = b.expr_stmt(use_x, 8);
    let ret = b.named("R", 1);
    let body = b.block(vec![], vec![s1, s2], None, 2);
    let f = b.function("f", vec![], ret, body, 0);
    let x = b.sym("x");
    let (env, _) = resolve(vec![f]);
    assert_eq!(errors(&env).last(), Some(&ResolutionError::UnknownName { span: span(8), name: x }));
}

#[test]
fn nested_function_sees_functions_but_not_variables_of_its_parent() {
    let mut b = Builder::new();
    // fn f() -> R { let x = 1; fn g() -> R { x; f; } }
    let use_x = b.var("x", 20);
    let use_f = b.var("f", 21);
    let use_f_node = name_node(&use_f);
    let sx = b.expr_stmt(use_x, 20);
    let sf = b.expr_stmt(use_f, 21);
    let rg = b.named("R", 11);
    let gbody = b.block(vec![], vec![sx, sf], None, 12);
    let g = b.function("g", vec![], rg, gbody, 10);
    let one = b.int_lit(1, 3);
    let let_x = b.let_stmt("x", one, 2);
    let rf = b.named("R", 1);
    let fbody = b.block(vec![g], vec![let_x], None, 2);
    let f = b.function("f", vec![], rf, fbody, 0);
    let x = b.sym("x");
    let (env, _) = resolve(vec![f]);
    assert!(errors(&env).contains(&ResolutionError::UnknownName { span: span(20), name: x }));
    assert_eq!(env.resolutions().vars.get(&use_f_node), Some(&Either::Right(FnId(0))));
    // the nested function got its own id, and it is defined
    assert_eq!(env.definitions().fn_span(FnId(1)), span(10));
    assert_eq!(env.definitions().fns(FnId(1)).ret, Ty::Unknown);
}

#[test]
fn control_flow_statements_resolve_their_parts() {
    let mut b = Builder::new();
    // fn f() -> R { let x = 1; if x { x } else { y }; loop { break x; } return x; x = x; }
    let one = b.int_lit(1, 3);
    let let_x = b.let_stmt("x", one, 2);
    let cond = b.var("x", 5);
    let then_use = b.var("x", 6);
    let then_node = name_node(&then_use);
    let then_block = b.block(vec![], vec![], Some(then_use), 6);
    let else_use = b.var("y", 7);
    let else_block = b.block(vec![], vec![], Some(else_use), 7);
    let if_stmt = b.stmt(Stmt::If { cond, then_block, else_block: Some(else_block) }, 4);
    let brk_value = b.var("x", 9);
    let brk_node = name_node(&brk_value);
    let brk = b.stmt(Stmt::Break { value: Some(brk_value) }, 9);
    let loop_body = b.block(vec![], vec![brk], None, 8);
    let loop_stmt = b.stmt(Stmt::Loop { body: loop_body }, 8);
    let ret_value = b.var("x", 10);
    let ret_stmt = b.stmt(Stmt::Return { value: Some(ret_value) }, 10);
    let place = b.var("x", 11);
    let value = b.var("x", 12);
    let assign = b.stmt(Stmt::Assign { place, value }, 11);
    let ret = b.named("R", 1);
    let body = b.block(vec![], vec![let_x, if_stmt, loop_stmt, ret_stmt, assign], None, 2);
    let f = b.function("f", vec![], ret, body, 0);
    let y = b.sym("y");
    let r = b.sym("R");
    let (env, _) = resolve(vec![f]);
    assert_eq!(
        errors(&env),
        &vec![
            ResolutionError::UnknownType { span: span(1), name: r },
            ResolutionError::UnknownName { span: span(7), name: y },
        ]
    );
    assert_eq!(env.resolutions().vars.get(&then_node), Some(&Either::Left(VarId(0))));
    assert_eq!(env.resolutions().vars.get(&brk_node), Some(&Either::Left(VarId(0))));
}

#[test]
fn every_id_handed_out_is_defined_after_resolution() {
    let mut b = Builder::new();
    // items nested in a function body get ids after the outer items
    let inner_ty = b.data("Inner", vec![], 20);
    let rg = b.named("Inner", 22);
    let gbody = b.block(vec![], vec![], None, 23);
    let g = b.function("g", vec![], rg, gbody, 21);
    let rf = b.named("Outer", 2);
    let fbody = b.block(vec![inner_ty, g], vec![], None, 3);
    let f = b.function("f", vec![], rf, fbody, 1);
    let outer_ty = b.data("Outer", vec![], 10);
    let (env, prog) = resolve(vec![f, outer_ty]);
    assert!(errors(&env).is_empty());
    assert_eq!(prog.items.len(), 2);
    assert!(matches!(env.definitions().tys(TyId(0)), TyDef::Struct { .. }));
    assert!(matches!(env.definitions().tys(TyId(1)), TyDef::Struct { .. }));
    assert_eq!(env.definitions().ty_span(TyId(1)), span(20));
    assert_eq!(env.definitions().fns(FnId(0)).ret, Ty::Custom(TyId(0)));
    assert_eq!(env.definitions().fns(FnId(1)).ret, Ty::Custom(TyId(1)));
}

#[test]
fn parts_of_the_environment_can_be_taken_out() {
    let mut b = Builder::new();
    let s = b.data("S", vec![], 1);
    let (env, _) = resolve(vec![s]);
    let (defs, res, diags) = env.into_parts();
    assert!(matches!(defs.tys(TyId(0)), TyDef::Struct { .. }));
    assert!(res.vars.is_empty());
    assert!(diags.errors().is_empty());
}
