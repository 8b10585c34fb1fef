[package]
name = "dirfill"
version = "0.1.0"
edition = "2021"
publish = false

[dependencies]
rand = "0.8"
byte-unit = "5"
clap = { version = "4", features = ["derive"] }
indicatif = "0.17"
