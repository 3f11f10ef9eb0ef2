[package]
name = "typos"
version = "0.1.0"
edition = "2021"
publish = false

[dependencies]
anyhow = "=1.0.104"
failure = "=0.1.8"
grep-searcher = "=0.1.17"
kstring = { version = "=1.0.6", features = ["serde"] }
regex = "=1.13.1"
serde = { version = "=1.0.229", features = ["derive"] }
toml = "=1.1.8"
typos-vars = "=0.11.0"
