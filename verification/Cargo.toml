[package]
name = "orml"
version = "0.1.0"
edition = "2021"
publish = false

[dependencies]
astro-float = "*"
lazy_static = "1"
num-traits = "0.2"
