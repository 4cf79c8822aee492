[package]
name = "recommend_core"
version = "0.1.0"
edition = "2021"
publish = false

[dependencies]
whatlang = "*"
rust-stemmers = "*"
serde = { version = "*", features = ["derive"] }
serde_json = "*"
uuid = { version = "*", features = ["serde", "v4"] }
gremlin-client = "*"
clap = { version = "*", features = ["derive"] }
axum = "*"
tokio = { version = "*", features = ["rt-multi-thread", "macros", "net"] }
