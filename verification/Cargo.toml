[package]
name = "dice_roulette"
version = "0.1.0"
edition = "2021"
publish = false

[dependencies]
rand = "0.8"
rmp-serde = "1"
walkdir = "2"
