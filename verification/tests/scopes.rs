use chumsky::span::SimpleSpan;
use rustc_hash::FxHashMap;
use string_interner::DefaultStringInterner;

use genc::semantic::ast::{DataDef, EnumDef, Function, Type, Visibility};
use genc::semantic::diagnostics::Diagnostics;
use genc::semantic::nameres::{
    BuiltinTy, Definitions, FnDef, FnId, Scope, ScopeKind, Scopes, SymTable, Ty, TyDef, TyId, VarDef, VarId,
};
use genc::semantic::node::{FileId, Id, Node, NodeId, Spanned};

fn span(lo: usize) -> SimpleSpan {
    SimpleSpan::from(lo..lo + 1)
}

#[test]
fn defining_a_variable_shadows_and_returns_the_previous_binding() {
    let mut names = DefaultStringInterner::default();
    let x = names.get_or_intern("x");
    let y = names.get_or_intern("y");
    let mut table = SymTable::new();
    assert_eq!(table.define_var(x, VarId(0)), None);
    assert_eq!(table.define_var(x, VarId(3)), Some(VarId(0)));
    assert_eq!(table.lookup_var(&x), Some(VarId(3)));
    assert_eq!(table.lookup_var(&y), None);
}

#[test]
fn defining_a_type_or_function_never_overwrites() {
    let mut names = DefaultStringInterner::default();
    let t = names.get_or_intern("T");
    let f = names.get_or_intern("f");
    let mut table = SymTable::default();
    assert_eq!(table.define_ty(t, Ty::Custom(TyId(0))), Ok(()));
    assert_eq!(table.define_ty(t, Ty::Custom(TyId(1))), Err(Ty::Custom(TyId(0))));
    assert_eq!(table.lookup_type(&t), Some(Ty::Custom(TyId(0))));
    assert_eq!(table.define_fn(f, FnId(2)), Ok(()));
    assert_eq!(table.define_fn(f, FnId(5)), Err(FnId(2)));
    assert_eq!(table.lookup_fn(&f), Some(FnId(2)));
    // types and functions live in separate namespaces
    assert_eq!(table.lookup_fn(&t), None);
    assert_eq!(table.lookup_type(&f), None);
}

#[test]
fn table_built_from_maps_holds_their_bindings() {
    let mut names = DefaultStringInterner::default();
    let int = names.get_or_intern("i32");
    let mut tys = FxHashMap::default();
    tys.insert(int, Ty::Builtin(BuiltinTy::I32));
    let table = SymTable::with(FxHashMap::default(), FxHashMap::default(), tys);
    assert_eq!(table.lookup_type(&int), Some(Ty::Builtin(BuiltinTy::I32)));
    let scopes = Scopes::with(table);
    assert_eq!(scopes.lookup_type(&int), Some(Ty::Builtin(BuiltinTy::I32)));
}

#[test]
fn new_scope_binds_nothing() {
    let mut names = DefaultStringInterner::default();
    let x = names.get_or_intern("x");
    let scope = Scope::new(ScopeKind::Block);
    assert_eq!(scope.lookup_var(&x), None);
    assert_eq!(scope.lookup_type(&x), None);
    assert_eq!(scope.lookup_fn(&x), None);
}

#[test]
fn block_scope_sees_outer_names_and_function_scope_hides_outer_variables() {
    let mut names = DefaultStringInterner::default();
    let x = names.get_or_intern("x");
    let t = names.get_or_intern("T");
    let f = names.get_or_intern("f");
    let mut scopes = Scopes::new();
    scopes.current_scope().define_fn(f, FnId(0)).unwrap();
    scopes.enter(ScopeKind::Function);
    scopes.current_scope().define_var(x, VarId(0));
    scopes.current_scope().define_ty(t, Ty::Custom(TyId(0))).unwrap();
    scopes.enter(ScopeKind::Block);
    assert_eq!(scopes.lookup_var(&x), Some(VarId(0)));
    assert_eq!(scopes.lookup_type(&t), Some(Ty::Custom(TyId(0))));
    assert_eq!(scopes.lookup_fn(&f), Some(FnId(0)));
    scopes.enter(ScopeKind::Function);
    assert_eq!(scopes.lookup_var(&x), None);
    assert_eq!(scopes.lookup_type(&t), Some(Ty::Custom(TyId(0))));
    assert_eq!(scopes.lookup_fn(&f), Some(FnId(0)));
    scopes.exit();
    assert_eq!(scopes.lookup_var(&x), Some(VarId(0)));
}

#[test]
fn inner_binding_shadows_outer_and_ends_with_its_scope() {
    let mut names = DefaultStringInterner::default();
    let x = names.get_or_intern("x");
    let mut scopes = Scopes::default();
    scopes.current_scope().define_var(x, VarId(0));
    scopes.enter(ScopeKind::Block);
    scopes.current_scope().define_var(x, VarId(1));
    assert_eq!(scopes.lookup_var(&x), Some(VarId(1)));
    scopes.exit();
    assert_eq!(scopes.lookup_var(&x), Some(VarId(0)));
    // leaving with no scope open keeps the root
    scopes.exit();
    assert_eq!(scopes.lookup_var(&x), Some(VarId(0)));
}

#[test]
fn allocated_then_defined_id_reads_back_its_definition() {
    let mut defs = Definitions::default();
    let a = defs.alloc_ty(span(1));
    let b = defs.alloc_ty(span(2));
    assert_eq!((a, b), (TyId(0), TyId(1)));
    defs.define_ty(b, TyDef::Alias(Ty::Unit));
    defs.define_ty(a, TyDef::Alias(Ty::Never));
    assert!(matches!(defs.tys(a), TyDef::Alias(Ty::Never)));
    assert!(matches!(defs.tys(b), TyDef::Alias(Ty::Unit)));
    assert_eq!(defs.ty_span(b), span(2));
    let v = defs.alloc_var(span(3));
    defs.define_var(v, VarDef::Local);
    assert_eq!(defs.vars(v), &VarDef::Local);
    let f = defs.alloc_fn(span(4));
    defs.define_fn(f, FnDef { args: Box::new([]), ret: Ty::Unit });
    assert_eq!(defs.fns(f).ret, Ty::Unit);
    assert_eq!(defs.fn_span(f), span(4));
}

#[test]
fn inserted_definitions_get_consecutive_ids() {
    let mut defs = Definitions::default();
    assert_eq!(defs.insert_ty(span(1), TyDef::Alias(Ty::Unit)), TyId(0));
    assert_eq!(defs.insert_ty(span(2), TyDef::Alias(Ty::Unit)), TyId(1));
    assert_eq!(defs.insert_var(span(3), VarDef::Arg), VarId(0));
    assert_eq!(defs.insert_var(span(4), VarDef::Local), VarId(1));
    assert_eq!(defs.var_span(VarId(1)), span(4));
    assert_eq!(defs.insert_fn(span(5), FnDef { args: Box::new([]), ret: Ty::Never }), FnId(0));
    assert_eq!(defs.fns(FnId(0)).signature(), Ty::Fn(Box::new(Ty::Never), vec![]));
}

#[test]
fn diagnostics_keep_errors_in_order() {
    let mut d: Diagnostics<u32> = Diagnostics::new();
    assert!(d.errors().is_empty());
    d.push(3);
    d.push(1);
    d.push(3);
    assert_eq!(d.errors(), &vec![3, 1, 3]);
}

#[test]
fn ids_keep_their_numbers() {
    let file = FileId::new(7);
    assert_eq!(file.into_inner(), 7);
    let node = NodeId::new(3, file);
    assert_eq!(node.into_inner(), (3, 7));
    assert_eq!(node.node_id(), 3);
    assert_eq!(node.file_id(), &file);
    let id: Id<u8> = node.cast();
    assert_eq!(id.untyped(), node);
    assert_eq!(id.into_inner(), (3, 7));
    assert_eq!(id.copied().node_id(), 3);
    assert_eq!(id.file_id(), &file);
    let typed: Id<u8> = Id::new(4, file);
    assert_eq!(typed.untyped(), NodeId::new(4, file));
}

#[test]
fn nodes_and_spanned_values_keep_their_parts() {
    let mut n = Node::new(5u32, span(2), Id::new(1, FileId::new(0)));
    assert_eq!(*n.value(), 5);
    *n.value_mut() = 6;
    assert_eq!(*n.value(), 6);
    assert_eq!(n.span(), span(2));
    assert_eq!(n.id().node_id(), 1);
    let s = Spanned::new(span(9), "v");
    assert_eq!(s.span(), span(9));
    assert_eq!(*s.value(), "v");
}

fn ident(names: &mut DefaultStringInterner, next: &mut usize, s: &str, lo: usize) -> Node<string_interner::DefaultSymbol> {
    *next += 1;
    Node::new(names.get_or_intern(s), span(lo), Id::new(*next, FileId::new(0)))
}

#[test]
fn unique_variants_keep_first_occurrences() {
    let mut names = DefaultStringInterner::default();
    let mut next = 0;
    let name = ident(&mut names, &mut next, "E", 0);
    let variants = ["A", "B", "A", "C", "B", "A"]
        .iter()
        .enumerate()
        .map(|(i, v)| ident(&mut names, &mut next, v, 10 + i))
        .collect();
    let e = EnumDef { vis: Visibility::Priv, name, variants };
    let (kept, dups) = e.unique_variants();
    let abc: Vec<_> = ["A", "B", "C"].iter().map(|s| names.get_or_intern(s)).collect();
    assert_eq!(kept, abc);
    let pairs: Vec<_> = dups.iter().map(|(o, d)| (o.span(), d.span())).collect();
    assert_eq!(pairs, vec![(span(10), span(12)), (span(11), span(14)), (span(10), span(15))]);
}

#[test]
fn unique_fields_and_arguments_keep_first_occurrences() {
    let mut names = DefaultStringInterner::default();
    let mut next = 0;
    let ty = |names: &mut DefaultStringInterner, next: &mut usize, s: &str, lo: usize| {
        let n = ident(names, next, s, lo);
        *next += 1;
        Node::new(Box::new(Type::Named(n)), span(lo), Id::new(*next, FileId::new(0)))
    };
    let f1 = (ident(&mut names, &mut next, "x", 1), ty(&mut names, &mut next, "T1", 2));
    let f2 = (ident(&mut names, &mut next, "x", 3), ty(&mut names, &mut next, "T2", 4));
    let f3 = (ident(&mut names, &mut next, "y", 5), ty(&mut names, &mut next, "T3", 6));
    let name = ident(&mut names, &mut next, "S", 0);
    let d = DataDef { vis: Visibility::Pub, name, fields: vec![f1, f2, f3] };
    let (kept, dups) = d.unique_fields();
    let kept_spans: Vec<_> = kept.iter().map(|(n, t)| (n.span(), t.span())).collect();
    assert_eq!(kept_spans, vec![(span(1), span(2)), (span(5), span(6))]);
    assert_eq!(dups.len(), 1);
    assert_eq!((dups[0].0.span(), dups[0].1.span()), (span(1), span(3)));

    let a1 = (ident(&mut names, &mut next, "a", 11), ty(&mut names, &mut next, "T", 12));
    let a2 = (ident(&mut names, &mut next, "a", 13), ty(&mut names, &mut next, "T", 14));
    let fname = ident(&mut names, &mut next, "f", 10);
    let ret = ty(&mut names, &mut next, "R", 15);
    next += 1;
    let body = Node::new(
        Box::new(genc::semantic::ast::Block { items: vec![], stmts: vec![], tail: None }),
        span(16),
        Id::new(next, FileId::new(0)),
    );
    let func = Function { vis: Visibility::Priv, name: fname, args: vec![a1, a2], ret, body };
    let (kept, dups) = func.unique_args();
    assert_eq!(kept.len(), 1);
    assert_eq!(kept[0].0.span(), span(11));
    assert_eq!((dups[0].0.span(), dups[0].1.span()), (span(11), span(13)));
}
