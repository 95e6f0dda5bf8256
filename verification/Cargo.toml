[package]
name = "slime_battle"
version = "0.1.0"
edition = "2021"
publish = false

[dependencies]
rand = "*"
