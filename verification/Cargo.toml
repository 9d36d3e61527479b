[package]
name = "subtitle_lsp"
version = "0.1.0"
edition = "2021"
publish = false

[dependencies]
tower-lsp = "*"
serde_json = "*"
