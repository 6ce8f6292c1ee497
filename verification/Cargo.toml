[package]
name = "cmri"
version = "0.1.0"
edition = "2021"
publish = false

[dependencies]
ruduino = "*"

[dev-dependencies]
rand = "*"
