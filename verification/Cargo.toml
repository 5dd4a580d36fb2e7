[package]
name = "png_ascii"
version = "0.1.0"
edition = "2021"
publish = false

[dependencies]
flate2 = "1"
