//! Front end of the `genc` language: syntax tree, name resolution and type
//! checking, with their contracts proved by Verus.

pub mod semantic;
