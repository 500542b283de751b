[package]
name = "myriad"
version = "0.1.0"
edition = "2021"
publish = false

[dependencies]
anyhow = "1"
irc-rust = "*"
itertools = "*"
serde = { version = "1", features = ["derive"] }
toml = "*"
