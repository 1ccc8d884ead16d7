[package]
name = "schema_lsp"
version = "0.1.0"
edition = "2021"
publish = false

[dependencies]
lsp-server = "*"
lsp-types = "*"
serde_json = "1"
