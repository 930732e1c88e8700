use vstd::prelude::*;

use super::{Ident, Item, RBlock, RExpr, RType};

verus! {

pub struct Block {
    pub items: Vec<Item>,
    pub stmts: Vec<super::RStmt>,
    pub tail: Option<RExpr>,
}

pub enum Stmt {
    Expr(RExpr),
    Let { name: Ident, ty: Option<RType>, value: RExpr },
    Assign { place: RExpr, value: RExpr },
    Return { value: Option<RExpr> },
    Loop { body: RBlock },
    Break { value: Option<RExpr> },
    Continue,
    If { cond: RExpr, then_block: RBlock, else_block: Option<RBlock> },
}

} // verus!
