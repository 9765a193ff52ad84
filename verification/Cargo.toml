[package]
name = "scanolotl"
version = "0.1.0"
edition = "2021"
publish = false

[dependencies]
serde_json = "1"
serde = { version = "1", features = ["derive"] }
async-std = "1"
futures = "0.3"
clap = "=2.34.0"
indicatif = "=0.17.8"
