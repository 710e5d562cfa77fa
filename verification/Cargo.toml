[package]
name = "eink_image"
version = "0.2.0"
edition = "2021"
publish = false

[dependencies]
clap = "*"
image = "*"
indicatif = "*"
