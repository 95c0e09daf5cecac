[package]
name = "lazy_sock"
version = "0.1.0"
edition = "2021"
publish = false

[dependencies]
url = "2"
tokio = { version = "1", features = ["rt-multi-thread", "net", "io-util", "signal", "time", "fs", "sync", "macros"] }
