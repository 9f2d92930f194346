[package]
name = "rustup_core"
version = "0.1.0"
edition = "2021"
publish = false

[dependencies]
itertools = "=0.15.0"
anyhow = "=1.0.104"
tokio = { version = "=1.53.2", features = ["rt-multi-thread", "time"] }
