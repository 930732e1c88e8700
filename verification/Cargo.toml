[package]
name = "genc"
version = "0.1.0"
edition = "2021"
publish = false

[dependencies]
chumsky = { version = "*", default-features = false }
index_vec = "*"
rustc-hash = "*"
string-interner = "*"
