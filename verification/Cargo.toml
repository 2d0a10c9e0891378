[package]
name = "filesync"
version = "0.1.0"
edition = "2021"
publish = false

[dependencies]
serde = "1"
serde_derive = "1"
bincode = "0.9"
argparse = "0.2"
chrono = "0.4"
