[package]
name = "options_math"
version = "0.1.0"
edition = "2021"
publish = false

[dependencies]
chrono = { version = "0.4", default-features = false, features = ["std"] }
derive-new = "0.5"
itertools = "0.10"
