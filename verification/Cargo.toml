[package]
name = "calculator"
version = "0.1.0"
edition = "2021"
publish = false

[dependencies]
capnp = "*"
capnp-rpc = "*"
futures = "*"
tokio = { version = "*", features = ["net", "rt"] }
tokio-util = { version = "*", features = ["compat"] }
