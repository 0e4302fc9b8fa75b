[package]
name = "semcode"
version = "0.1.0"
edition = "2021"
publish = false

[dependencies]
anstream = "*"
anyhow = "*"
arrow = "*"
chrono = "*"
colored = "*"
futures = "*"
hex = "*"
owo-colors = "*"
regex = "*"
serde = { version = "*", features = ["derive"] }
serde_json = "*"
tokio = { version = "*", features = ["full"] }
tracing = "*"
tree-sitter = "*"
tree-sitter-c = "*"
tree-sitter-python = "*"
tree-sitter-rust = "*"
tree-sitter-zig = "*"
