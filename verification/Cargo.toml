[package]
name = "tool_dispatch"
version = "0.1.0"
edition = "2021"
publish = false

[dependencies]
anyhow = "1"
tokio = { version = "1", default-features = false, features = ["sync"] }
tokio-util = { version = "0.7", default-features = false }
