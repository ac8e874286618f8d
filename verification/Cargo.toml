[package]
name = "tracing_fluentd"
version = "0.1.0"
edition = "2021"
publish = false

[dependencies]
crossbeam-channel = "*"
tracing-core = "*"
tracing-subscriber = "*"

[dev-dependencies]
rmp-serde = "*"
rmpv = { version = "*", features = ["with-serde"] }
