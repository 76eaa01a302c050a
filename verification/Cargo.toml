[package]
name = "tokio_fsm"
version = "0.1.0"
edition = "2021"
publish = false

[dependencies]
petgraph = "=0.8.3"
humantime = "=2.4.0"
tokio = { version = "=1.54.1", features = ["rt", "sync", "time", "macros"] }
tokio-util = "=0.7.20"
syn = { version = "=2.0.119", features = ["full", "extra-traits"] }
quote = "=1.0.47"
proc-macro2 = "=1.0.107"
darling = "=0.21.3"
thiserror = "=2.0.21"
serde = { version = "=1.0.229", features = ["derive"] }
tracing = "=0.1.44"
