[package]
name = "comment-checker"
version = "0.1.0"
edition = "2021"
publish = false

[dependencies]
clap = { version = "4", features = ["derive"] }
ignore = "0.4"
libloading = "0.8"
minijinja = "2"
regex = "1"
serde = { version = "1", features = ["derive"] }
serde_json = "1"
thiserror = "2"
toml = "0.8"
tree-sitter = "0.25"
tree-sitter-language = "0.1"
