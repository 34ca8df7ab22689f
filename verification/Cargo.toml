[package]
name = "parcelona"
version = "0.1.0"
edition = "2021"
publish = false

[dependencies]
bstr = "*"

[dev-dependencies]
atoi = "*"
byteorder = "*"
