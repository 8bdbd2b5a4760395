[package]
name = "laundry5"
version = "0.1.0"
edition = "2021"
publish = false

[dependencies]
arc-swap = "1"
bstr = "1"
rand = "0.8"
tokio = { version = "1", features = ["rt", "rt-multi-thread", "net", "io-util", "signal", "fs", "macros", "time", "sync"] }
