[package]
name = "rotate"
version = "0.1.0"
edition = "2021"
publish = false

[dependencies]
gcd = "=2.3.0"
