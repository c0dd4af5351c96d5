[package]
name = "lang_turtle"
version = "0.1.0"
edition = "2021"
publish = false

[dependencies]
lsp-types = "0.94"
sophia_iri = "*"
similar = "2"
tower-lsp = "0.20"
tokio = { version = "1", features = ["io-std", "rt-multi-thread", "macros"] }
