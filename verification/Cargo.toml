[package]
name = "swiftlearner"
version = "0.1.0"
edition = "2021"
publish = false

[dependencies]
flate2 = "=1.1.10"
rand = "=0.9.5"
rand_mt = "=5.0.0"
