pub mod ast;
pub mod diagnostics;
pub mod fxmap;
pub mod nameres;
pub mod node;
pub mod parser;
pub mod typeck;
