pub mod token;
pub mod tree;
