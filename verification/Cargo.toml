[package]
name = "symbiont"
version = "1.0.0"
edition = "2021"
publish = false

[dependencies]
blake3 = "1"
rand = "0.8"
clap = { version = "4", features = ["derive"] }
serde = { version = "1", features = ["derive"] }
tracing = "0.1"
tracing-subscriber = { version = "0.3", features = ["env-filter"] }
