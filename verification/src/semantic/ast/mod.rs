use string_interner::symbol::SymbolU32;
use vstd::prelude::*;

use crate::semantic::node::{Node, Ref};

mod defs;
mod expr;
mod stmt;
mod ty;

pub use defs::{
    dup_pairs, first_pos, law_dup_pairs, law_uniq_positions, lemma_first_pos, lemma_uniq_in_range, named_keys, uniq_positions, unique_named_spec, Alias, DataDef, EnumDef, Function, TypeDef,
};
pub use expr::{BinOp, Expr, UnOp};
pub use stmt::{Block, Stmt};
pub use ty::Type;

verus! {

/// string-interner's `SymbolU32`: an interned name. The front end compares
/// names and uses them as map keys, and never reads them otherwise.
#[verifier::external_type_specification]
#[verifier::external_body]
pub struct ExSymbolU32(SymbolU32);

pub type Symbol = string_interner::DefaultSymbol;

/// Calls `PartialEq::eq` of string-interner's `SymbolU32`, which is derived and
/// compares the two interned indices: the result is whether the two symbols
/// are the same value.
#[verifier::external_body]
pub(crate) fn symbol_eq(a: &Symbol, b: &Symbol) -> (r: bool)
    ensures
        r == (*a == *b),
{
    *a == *b
}

pub type Ident = Node<Symbol>;

pub type RType = Ref<Type>;

pub type RExpr = Ref<Expr>;

pub type RStmt = Ref<Stmt>;

pub type RBlock = Ref<Block>;

pub type REnumDef = Ref<EnumDef>;

pub type RDataDef = Ref<DataDef>;

pub type RAlias = Ref<Alias>;

pub type RFunction = Ref<Function>;

pub struct Program {
    pub items: Vec<Item>,
}

pub enum Item {
    TypeDef(TypeDef),
    Alias(RAlias),
    Function(RFunction),
}

#[derive(Debug, Clone, Copy, PartialEq, Eq, Structural)]
pub enum Visibility {
    Pub,
    Priv,
}

/// A copy of an identifier.
pub fn copy_ident(i: &Ident) -> (r: Ident)
    ensures
        r == *i,
{
    Node { value: i.value, span: i.span, id: i.id.copied() }
}

} // verus!
