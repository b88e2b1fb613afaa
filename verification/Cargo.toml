[package]
name = "guess_game"
version = "0.1.0"
edition = "2021"
publish = false

[dependencies]
rand = "*"
actix-web = "*"
actix-rt = "*"
env_logger = "*"
