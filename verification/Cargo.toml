[package]
name = "journey_model_parser"
version = "0.1.0"
edition = "2021"
publish = false

[dependencies]
serde = { version = "1", features = ["derive"] }
serde-xml-rs = "0.6"
tracing = "0.1"
tracing-subscriber = "0.3"
