[package]
name = "ggfm"
version = "0.1.0"
edition = "2021"
publish = false

[dependencies]
base64 = "=0.22.1"
bzip2 = "=0.6.1"
getrandom = "=0.3.4"
hex = "=0.4.3"
rusqlite = { version = "=0.37.0", features = ["backup", "bundled"] }
serde = { version = "=1.0.229", features = ["derive"] }
serde_json = "=1.0.154"
thiserror = "=2.0.21"
tokio = { version = "=1.54.1", features = ["rt-multi-thread", "sync", "macros", "signal"] }
tracing-subscriber = "=0.3.23"
