[package]
name = "tree_flatten"
version = "0.1.0"
edition = "2021"
publish = false

[dependencies]
glob = "*"
tiktoken-rs = "*"
tokio = { version = "*", features = ["sync", "rt-multi-thread", "macros"] }
walkdir = "*"
serde = { version = "*", features = ["derive"] }
serde_json = "*"
actix-web = "*"
actix-files = "*"
bytes = "*"
futures-util = "*"
tera = "*"
tokio-stream = "*"
colored = "*"
tree-sitter = "*"
tree-sitter-rust = "*"
tree-sitter-javascript = "*"
tree-sitter-python = "*"
