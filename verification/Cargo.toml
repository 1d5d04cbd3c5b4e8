[package]
name = "privguide"
version = "0.1.0"
edition = "2021"
publish = false

[dependencies]
oxigraph = { version = "*", default-features = false }
regex = "*"
serde = { version = "*", features = ["derive"] }
serde_json = "*"
serde_yaml_ng = "*"
thiserror = "*"
clap = { version = "*", features = ["derive"] }
tera = "*"
tree-sitter = { version = "*", features = ["wasm"] }
