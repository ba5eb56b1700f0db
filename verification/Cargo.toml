[package]
name = "compare-svg"
version = "0.1.0"
edition = "2021"
publish = false

[dependencies]
anyhow = "1"
axum = { version = "0.8", features = ["ws"] }
base64 = "0.22"
clap = "4"
gix = "*"
open = "5"
tokio = { version = "1", features = ["macros", "net", "rt-multi-thread", "signal", "sync", "time", "process"] }
tracing = "0.1"
tracing-subscriber = { version = "0.3", features = ["env-filter"] }
