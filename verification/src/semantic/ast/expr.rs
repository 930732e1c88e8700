use vstd::prelude::*;

use crate::semantic::parser::token::Literal;

use super::{Ident, RBlock, RExpr};

verus! {

pub enum Expr {
    Literal(Literal),
    Variable(Ident),
    Grouping(RExpr),
    Binary { lhs: RExpr, rhs: RExpr, op: BinOp },
    Unary { rhs: RExpr, op: UnOp },
    Field { lhs: RExpr, name: Ident },
    Call { lhs: RExpr, args: Vec<RExpr> },
    MethodCall { lhs: RExpr, name: Ident, args: Vec<RExpr> },
    Index { lhs: RExpr, index: RExpr },
    Ref(RExpr),
    Deref(RExpr),
    Block(RBlock),
}

#[derive(Debug, Clone, Copy, PartialEq, Eq, Structural)]
pub enum BinOp {
    // +
    Add,
    // -
    Sub,
    // *
    Mul,
    // /
    Div,
    // %
    Mod,
    // ==
    Eq,
    // !=
    Ne,
    // <
    Lt,
    // <=
    Le,
    // >
    Gt,
    // >=
    Ge,
    // &&
    And,
    // ||
    Or,
}

#[derive(Debug, Clone, Copy, PartialEq, Eq, Structural)]
pub enum UnOp {
    // !
    Not,
    // -
    Neg,
}

} // verus!
