[package]
name = "cmd_guard"
version = "0.1.0"
edition = "2021"
publish = false

[dependencies]
dirs = "6"
regex = "1"
serde = { version = "1", features = ["derive"] }
serde_json = "1"
toml = "0.9"
tree-sitter = "0.25"
tree-sitter-bash = "0.25"
tree-sitter-powershell = "0.25"
