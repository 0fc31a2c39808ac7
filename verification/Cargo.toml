[package]
name = "surge_ping"
version = "0.1.0"
edition = "2021"
publish = false

[dependencies]
rand = "*"
tokio = { version = "*", features = ["rt", "net", "time", "sync", "macros"] }
socket2 = "*"
parking_lot = "*"
