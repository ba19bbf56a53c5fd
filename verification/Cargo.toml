[package]
name = "uvi_writer"
version = "0.1.0"
edition = "2021"
publish = false

[dependencies]
smallvec = "0.6"
futures = "0.1"
tokio-io = "0.1"
