[package]
name = "extractor"
version = "0.1.0"
edition = "2021"
publish = false

[dependencies]
clap = "*"
tree-sitter = "*"
tree-sitter-java = "*"
tree-sitter-c-sharp = "*"
