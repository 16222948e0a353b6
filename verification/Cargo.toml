[package]
name = "light_reader"
version = "0.1.0"
edition = "2021"
publish = false

[dependencies]
quick-xml = "0.37"
zip = { version = "0.6", default-features = false, features = ["deflate"] }
encoding_rs = "0.8"
regex = "1"
