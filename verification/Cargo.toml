[package]
name = "dctl"
version = "0.1.0"
edition = "2021"
publish = false

[dependencies]
blake3 = { version = "1", default-features = false }
clap = { version = "4", features = ["derive"] }
serde = { version = "1", features = ["derive"] }
serde_json = "1"
tokio = { version = "1", features = ["rt", "macros", "time"] }
tracing = "0.1"
unicode-normalization = "0.1"
