[package]
name = "matfile"
version = "0.2.0"
edition = "2021"
publish = false

[dependencies]
libflate = "1"
ndarray = "0.15"
num-complex = "0.4"
