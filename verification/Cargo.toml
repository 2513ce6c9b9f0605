[package]
name = "powder"
version = "0.1.0"
edition = "2021"
publish = false

[dependencies]
clap = "4"
colored = "2"
dirs = "5"
serde = { version = "1", features = ["derive"] }
serde_json = "1"
terminal_size = "0.3"
