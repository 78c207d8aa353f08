[package]
name = "netmon"
version = "0.1.0"
edition = "2021"
publish = false

[dependencies]
chrono = "*"
rand = "*"
redis = { version = "*", features = ["tokio-comp"] }
serde = "*"
serde_derive = "*"
tokio = { version = "*", features = ["rt-multi-thread", "macros", "time"] }
toml = "*"
