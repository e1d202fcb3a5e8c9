[package]
name = "vors"
version = "0.1.0"
edition = "2021"
publish = false

[dependencies]
nalgebra = "0.33"
image = "0.25"
png = "0.17"
tar = "0.4"
byteorder = "1"
rand = "0.8"
