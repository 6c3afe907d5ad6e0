[package]
name = "nyc_subway_rs"
version = "0.1.0"
edition = "2021"
publish = false

[dependencies]
csv = "=1.4.0"
reqwest = { version = "=0.13.5", default-features = false, features = ["blocking"] }
