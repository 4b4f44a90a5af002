[package]
name = "uturn"
version = "0.1.0"
edition = "2021"
publish = false

[dependencies]
anyhow = "1"
clap = { version = "4", features = ["derive", "env"] }
dashmap = "6"
hmac = "0.12"
md5 = "0.7"
parking_lot = "0.12"
rand = "0.8"
sha1 = "0.10"
tokio = { version = "1", features = ["net", "rt-multi-thread", "macros", "time", "signal"] }
tracing = "0.1"
tracing-subscriber = "0.3"
