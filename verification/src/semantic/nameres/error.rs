use vstd::prelude::*;

use crate::semantic::ast::Symbol;
use crate::semantic::node::Span;

verus! {

#[derive(Debug, PartialEq, Eq)]
pub enum ResolutionError {
    DuplicateTypeDefinition { symbol: Symbol, original: Option<Span>, duplicate: Span },
    DuplicateFunctionDefinition { symbol: Symbol, original: Span, duplicate: Span },
    DuplicateVariantDefinition { symbol: Symbol, original: Span, duplicate: Span },
    DuplicateFieldDefinition { symbol: Symbol, original: Span, duplicate: Span },
    UnknownType { span: Span, name: Symbol },
    DuplicateArgumentDefinition { symbol: Symbol, original: Span, duplicate: Span },
    UnknownName { span: Span, name: Symbol },
}

} // verus!
