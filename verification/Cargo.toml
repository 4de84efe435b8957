[package]
name = "mutate"
version = "0.1.0"
edition = "2021"
publish = false

[dependencies]
rand = "0.9"
bio = "*"
flate2 = "1"
argh = "0.1"
