[package]
name = "memdump"
version = "0.1.0"
edition = "2021"
publish = false

[dependencies]
byteorder = "=1.5.0"
darling = "0.20"
quote = "1"
syn = "2"
