[package]
name = "wonnx"
version = "0.1.0"
edition = "2021"
publish = false

[dependencies]
protobuf = "2.27"
thiserror = "1.0"
lazy_static = "1.4"
