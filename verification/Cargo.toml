[package]
name = "fpx_convert"
version = "0.1.0"
edition = "2021"
publish = false

[dependencies]
cfb = "*"
jpeg-decoder = "*"
jpeg-encoder = "*"
png = "*"
thiserror = "*"
