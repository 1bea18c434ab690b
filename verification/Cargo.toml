[package]
name = "engine"
version = "0.1.0"
edition = "2021"
publish = false

[dependencies]
anyhow = "1"
async-trait = "0.1"
thiserror = "1"
tokio = { version = "1", features = ["rt-multi-thread", "process", "io-util", "time", "macros", "sync"] }
