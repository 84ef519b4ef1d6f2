[package]
name = "teardown_format"
version = "0.1.0"
edition = "2021"
publish = false

[dependencies]
flate2 = "=1.1.10"
base64 = "=0.13.1"
rayon = "=1.12.0"
nalgebra = "=0.35.0"
