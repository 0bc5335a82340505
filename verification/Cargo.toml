[package]
name = "bugs"
version = "0.1.0"
edition = "2021"
publish = false

[dependencies]
rand = "0.8"
rand_chacha = "0.3"
bincode = "1.3"
lz4 = "1"
serde = { version = "1", features = ["derive"] }
clap = { version = "4", features = ["derive"] }
indicatif = "0.17"
