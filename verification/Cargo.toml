[package]
name = "yash_core"
version = "0.1.0"
edition = "2021"
publish = false

[dependencies]
itertools = "=0.15.0"
slab = "=0.4.12"
nix = { version = "=0.31.3", features = ["signal"] }
