[package]
name = "deslop-core"
version = "0.1.0"
edition = "2021"
publish = false

[dependencies]
blake3 = "=1.8.7"
tree-sitter = "=0.27.1"
tree-sitter-python = "=0.25.0"
tree-sitter-c-sharp = "=0.23.5"
tree-sitter-rust = "=0.24.2"
tree-sitter-dart = "=0.3.0"
tree-sitter-typescript = "=0.23.2"
