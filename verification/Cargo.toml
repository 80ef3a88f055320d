[package]
name = "ztcm"
version = "0.1.0"
edition = "2021"
publish = false

[dependencies]
regex = "1"
glob = "0.3"
clap = { version = "4", features = ["derive"] }
lazy_static = "1"
