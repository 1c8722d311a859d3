[package]
name = "pattern_subst"
version = "0.1.0"
edition = "2021"
publish = false

[dependencies]
symbol_table = { version = "*", features = ["global"] }
smallvec = "*"
serde = { version = "*", features = ["derive"] }
thiserror = "*"
