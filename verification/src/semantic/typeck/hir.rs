use vstd::prelude::*;

use rustc_hash::FxHashMap;

use crate::semantic::ast::{BinOp, UnOp};
use crate::semantic::nameres::{FnId, Ty, TyView, VarId};

verus! {

/// Index of an expression in the module's expression arena.
#[derive(Debug, Clone, Copy, PartialEq, Eq, Hash, Structural)]
pub struct ExprId(pub usize);

/// Index of a statement.
#[derive(Debug, Clone, Copy, PartialEq, Eq, Hash, Structural)]
pub struct StmtId(pub usize);

pub struct Module {
    pub functions: FxHashMap<FnId, Block>,
    pub exprs: Vec<Expr>,
}

pub struct Block {
    pub stmts: Vec<Stmt>,
    pub tail: Option<ExprId>,
}

pub enum Stmt {
    Expr(ExprId),
    Let { name: VarId, ty: Ty, value: ExprId },
    Assign { place: ExprId, value: ExprId },
    Return { value: Option<ExprId> },
    Loop { body: Block },
    Break { value: Option<ExprId> },
    Continue,
    If { cond: ExprId, then_block: Block, else_block: Option<Block> },
}

/// A literal. A float is held as the bit pattern of its `f64` value.
#[derive(Debug)]
pub enum Literal {
    Int(u64),
    Float(u64),
    Bool(bool),
    String(String),
    Char(char),
}

pub enum Expr {
    Literal(Literal),
    Variable(VarId),
    Function(FnId),
    Grouping(ExprId),
    Binary { lhs: ExprId, rhs: ExprId, op: BinOp },
    Unary { rhs: ExprId, op: UnOp },
    Field { lhs: ExprId, index: usize },
    Call { lhs: ExprId, args: Vec<ExprId> },
    Index { lhs: ExprId, index: ExprId },
    Ref(ExprId),
    Deref(ExprId),
    Block(Block),
}

// ---- mathematical values of the hir --------------------------------------
pub enum LiteralView {
    Int(u64),
    Float(u64),
    Bool(bool),
    String(Seq<char>),
    Char(char),
}

pub struct BlockView {
    pub stmts: Seq<StmtView>,
    pub tail: Option<ExprId>,
}

pub enum StmtView {
    Expr(ExprId),
    Let { name: VarId, ty: TyView, value: ExprId },
    Assign { place: ExprId, value: ExprId },
    Return { value: Option<ExprId> },
    Loop { body: BlockView },
    Break { value: Option<ExprId> },
    Continue,
    If { cond: ExprId, then_block: BlockView, else_block: Option<BlockView> },
}

pub enum ExprView {
    Literal(LiteralView),
    Variable(VarId),
    Function(FnId),
    Grouping(ExprId),
    Binary { lhs: ExprId, rhs: ExprId, op: BinOp },
    Unary { rhs: ExprId, op: UnOp },
    Field { lhs: ExprId, index: usize },
    Call { lhs: ExprId, args: Seq<ExprId> },
    Index { lhs: ExprId, index: ExprId },
    Ref(ExprId),
    Deref(ExprId),
    Block(BlockView),
}

pub open spec fn literal_view(l: Literal) -> LiteralView {
    match l {
        Literal::Int(i) => LiteralView::Int(i),
        Literal::Float(f) => LiteralView::Float(f),
        Literal::Bool(b) => LiteralView::Bool(b),
        Literal::String(s) => LiteralView::String(s@),
        Literal::Char(c) => LiteralView::Char(c),
    }
}

pub open spec fn block_view(b: Block) -> BlockView
    decreases b, 0nat,
{
    BlockView { stmts: stmts_view(b.stmts@), tail: b.tail }
}

pub open spec fn stmts_view(s: Seq<Stmt>) -> Seq<StmtView>
    decreases s, 1nat,
{
    if s.len() == 0 {
        Seq::empty()
    } else {
        stmts_view(s.drop_last()).push(stmt_view(s.last()))
    }
}

pub open spec fn stmt_view(s: Stmt) -> StmtView
    decreases s, 0nat,
{
    match s {
        Stmt::Expr(e) => StmtView::Expr(e),
        Stmt::Let { name, ty, value } => StmtView::Let { name, ty: ty@, value },
        Stmt::Assign { place, value } => StmtView::Assign { place, value },
        Stmt::Return { value } => StmtView::Return { value },
        Stmt::Loop { body } => StmtView::Loop { body: block_view(body) },
        Stmt::Break { value } => StmtView::Break { value },
        Stmt::Continue => StmtView::Continue,
        Stmt::If { cond, then_block, else_block } => StmtView::If {
            cond,
            then_block: block_view(then_block),
            else_block: match else_block {
                Some(b) => Some(block_view(b)),
                None => None,
            },
        },
    }
}

pub open spec fn expr_view(e: Expr) -> ExprView {
    match e {
        Expr::Literal(l) => ExprView::Literal(literal_view(l)),
        Expr::Variable(v) => ExprView::Variable(v),
        Expr::Function(f) => ExprView::Function(f),
        Expr::Grouping(g) => ExprView::Grouping(g),
        Expr::Binary { lhs, rhs, op } => ExprView::Binary { lhs, rhs, op },
        Expr::Unary { rhs, op } => ExprView::Unary { rhs, op },
        Expr::Field { lhs, index } => ExprView::Field { lhs, index },
        Expr::Call { lhs, args } => ExprView::Call { lhs, args: args@ },
        Expr::Index { lhs, index } => ExprView::Index { lhs, index },
        Expr::Ref(r) => ExprView::Ref(r),
        Expr::Deref(d) => ExprView::Deref(d),
        Expr::Block(b) => ExprView::Block(block_view(b)),
    }
}

pub open spec fn exprs_view(s: Seq<Expr>) -> Seq<ExprView> {
    s.map_values(|e: Expr| expr_view(e))
}

impl View for Block {
    type V = BlockView;

    open spec fn view(&self) -> BlockView {
        block_view(*self)
    }
}

impl View for Stmt {
    type V = StmtView;

    open spec fn view(&self) -> StmtView {
        stmt_view(*self)
    }
}

impl View for Expr {
    type V = ExprView;

    open spec fn view(&self) -> ExprView {
        expr_view(*self)
    }
}

pub struct ModuleView {
    pub functions: Map<FnId, BlockView>,
    pub exprs: Seq<ExprView>,
}

pub open spec fn fn_blocks_view(m: Map<FnId, Block>) -> Map<FnId, BlockView> {
    m.map_values(|b: Block| block_view(b))
}

impl View for Module {
    type V = ModuleView;

    open spec fn view(&self) -> ModuleView {
        ModuleView { functions: fn_blocks_view(self.functions@), exprs: exprs_view(self.exprs@) }
    }
}

} // verus!
