[package]
name = "scope_graph"
version = "0.1.0"
edition = "2021"
publish = false

[dependencies]
indexmap = "*"
once_cell = "*"
tree-sitter = "*"
