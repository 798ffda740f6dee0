[package]
name = "odata-params"
version = "0.1.0"
edition = "2021"
publish = false

[dependencies]
bigdecimal = "0.4"
chrono = { version = "0.4", default-features = false, features = ["std"] }
chrono-tz = "0.10"
uuid = "1"
