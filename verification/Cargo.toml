[package]
name = "cordis_core"
version = "0.1.0"
edition = "2021"
publish = false

[dependencies]
ctrlc = { version = "3", features = ["termination"] }
futures = "0.3"
notify = "8"
parking_lot = "0.12"
tokio = { version = "1", features = ["rt-multi-thread", "sync"] }
