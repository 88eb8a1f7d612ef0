[package]
name = "energy_grid"
version = "0.1.0"
edition = "2021"
publish = false

[dependencies]
rand = "0.8"
good-web-game = "0.4"
