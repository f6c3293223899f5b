[package]
name = "random_string_rs"
version = "0.1.0"
edition = "2021"
publish = false

[dependencies]
rand = { version = "=0.7.3", default-features = false }
rand_xoshiro = "=0.4.0"
