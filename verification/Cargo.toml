[package]
name = "game2048"
version = "0.1.0"
edition = "2021"
publish = false

[dependencies]
anyhow = "=1.0.104"
rand = "0.10"
ratatui = "=0.30.2"
tokio = { version = "=1.54.1", features = ["macros", "rt-multi-thread", "sync"] }
