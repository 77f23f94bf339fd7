[package]
name = "prefixe"
version = "0.3.0"
edition = "2021"
publish = false

[dependencies]
glob = "0.3"
regex = "1"
serde = { version = "1", features = ["derive"] }
shell-words = "1"
thiserror = "1"
toml = "0.8"
