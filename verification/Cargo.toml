[package]
name = "biscuit_converter"
version = "0.3.0"
edition = "2021"
publish = false

[dependencies]
memchr = "2"
num-traits = "0.2"
