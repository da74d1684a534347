[package]
name = "crossfire"
version = "0.1.0"
edition = "2021"
publish = false

[dependencies]
crossbeam-queue = "0.3"
lazy_static = "1"
parking_lot = "0.12"
tokio = { version = "1", default-features = false, features = ["rt", "rt-multi-thread"] }
