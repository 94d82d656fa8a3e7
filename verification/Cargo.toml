[package]
name = "java_lsp"
version = "0.1.0"
edition = "2021"
publish = false

[dependencies]
jclassfile = "=0.6.1"
ropey = { version = "=1.6.1", default-features = false }
tree-sitter = "=0.27.0"
tree-sitter-java = "=0.23.5"
lsp-server = "=0.10.0"
lsp-types = "=0.97.0"
serde = "=1.0.229"
serde_json = "=1.0.151"
crossbeam-channel = "=0.5.17"
walkdir = "=2.5.0"
zip = { version = "=8.6.0", default-features = false, features = ["deflate"] }
