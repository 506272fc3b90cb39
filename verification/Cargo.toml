[package]
name = "mosaic"
version = "0.1.0"
edition = "2021"

[dependencies]
hex = "0.4"
image = "*"
imageproc = "*"
