[package]
name = "binary_interpreter"
version = "0.1.0"
edition = "2021"

[dependencies]
byteorder = "1"
thiserror = "1"
