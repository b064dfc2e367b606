[package]
name = "webway"
version = "0.1.0"
edition = "2021"
publish = false

[dependencies]
prost = "0.12"
rand = "0.8"
rdkafka = "0.36"
tokio = { version = "1", features = ["macros", "rt-multi-thread", "time"] }
tracing-subscriber = "0.3"
