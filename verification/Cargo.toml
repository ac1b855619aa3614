[package]
name = "iso8601_timestamp"
version = "0.1.0"
edition = "2021"
publish = false

[dependencies]
serde = { version = "1", default-features = false, features = ["std"] }
time = { version = "=0.3.55", default-features = false, features = ["std"] }
