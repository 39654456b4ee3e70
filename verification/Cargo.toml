[package]
name = "bufpool"
version = "0.1.0"
edition = "2021"
publish = false

[dependencies]
slab = "0.4"
rand = "0.8"
quanta = "0.12"
arrow = { version = "*", default-features = false }
parquet = { version = "*", default-features = false, features = ["arrow"] }
