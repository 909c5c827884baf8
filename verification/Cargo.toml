[package]
name = "sankhya"
version = "0.1.0"
edition = "2021"
publish = false

[dependencies]
arrow-array = "=59.3.2"
arrow-schema = "=59.3.2"
datafusion = { version = "=55.2.0", default-features = false }
futures = "=0.3.34"
parking_lot = "=0.12.5"
tokio = { version = "=1.54.1", features = ["rt-multi-thread", "net", "io-util", "time", "macros", "signal", "sync"] }
tonic = { version = "=0.14.9", default-features = false }
tracing = "0.1"
tracing-subscriber = { version = "0.3", features = ["env-filter"] }
uuid = "=1.29.0"
