[package]
name = "bombadil"
version = "0.1.0"
edition = "2021"
publish = false

[dependencies]
anyhow = "*"
dirs = "*"

[dependencies.config]
version = "*"
default-features = false
features = ["toml"]
