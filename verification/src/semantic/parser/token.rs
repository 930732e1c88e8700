use std::marker::PhantomData;
use vstd::prelude::*;

verus! {

/// A literal as the lexer produced it. A float literal is held as the bit
/// pattern of its `f64` value (`f64::to_bits`).
#[derive(Debug)]
pub enum Literal {
    Int(u64),
    Float(u64),
    Bool(bool),
    String(String),
    Char(char),
}

pub enum Token<'ast> {
    Phantom(PhantomData<&'ast str>),
    Literal(Literal),
}

} // verus!
