[package]
name = "opr"
version = "0.1.0"
edition = "2021"
publish = false

[dependencies]
itertools = "=0.13.0"
serde = { version = "=1.0.229", features = ["derive", "rc"] }
serde-aux = "=4.7.0"
include_dir = "=0.7.4"
