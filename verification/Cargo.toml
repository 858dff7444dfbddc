[package]
name = "hyper_capi"
version = "0.1.0"
edition = "2021"
publish = false

[dependencies]
bytes = "1"
http = "0.2"
hyper = { version = "0.14", default-features = false }
libc = "0.2"

[dev-dependencies]
futures-executor = "0.3"
