[package]
name = "buckshot_roulette"
version = "0.1.0"
edition = "2021"
publish = false

[dependencies]
rand = "=0.8.8"
smart-read = "=0.7.0"
anyhow = "=1.0.104"
lazy_static = "=1.5.1"
