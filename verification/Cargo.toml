[package]
name = "isla_lib"
version = "0.1.0"
edition = "2021"
publish = false

[dependencies]
goblin = "*"
sha2 = "*"
toml = "*"
