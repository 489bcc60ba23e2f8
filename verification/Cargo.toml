[package]
name = "color_balance"
version = "0.1.0"
edition = "2021"
publish = false

[dependencies]
anyhow = "1"
clap = { version = "4", default-features = false, features = ["std", "derive", "help"] }
color_quant = "1.1"
image = { version = "0.25", default-features = false, features = ["png", "jpeg"] }
