[package]
name = "yasss13rtwcf_shared"
version = "0.1.0"
edition = "2021"
publish = false

[dependencies]
image = { version = "*", default-features = false, features = ["png"] }
rustc-serialize = "*"
byteorder = "*"
toml = "*"
nalgebra = "*"
