[package]
name = "way-netstack"
version = "0.1.0"
edition = "2021"
publish = false

[dependencies]
bytes = "1"
smoltcp = { version = "0.12", features = ["async"] }
thiserror = "2"
tokio = { version = "1", features = ["rt", "rt-multi-thread", "sync", "time", "io-util", "macros"] }
tracing = "0.1"
rustfs-mimalloc = "*"
