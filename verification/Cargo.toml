[package]
name = "muvor"
version = "0.1.0"
edition = "2021"
publish = false

[dependencies]
atspi = { version = "*", features = ["tokio"] }
futures-lite = "2"
tokio = { version = "1", features = ["rt", "sync", "time"] }
