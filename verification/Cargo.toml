[package]
name = "starlark"
version = "0.1.0"
edition = "2021"
publish = false

[dependencies]
anyhow = "1.0"
either = "1.6"
indexmap = "1.6"
itertools = "0.10"
lsp-server = "0.5"
lsp-types = "0.81.0"
once_cell = "1.5"
serde = { version = "1.0", features = ["derive"] }
serde_json = "1.0"
thiserror = "1.0"
