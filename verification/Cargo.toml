[package]
name = "bf_rs"
version = "0.1.0"
edition = "2021"
publish = false

[dependencies]
miette = { version = "7", features = ["fancy"] }
owo-colors = "4"
thiserror = "2"
tracing = "0.1"
tracing-subscriber = { version = "0.3", features = ["env-filter", "fmt"] }
