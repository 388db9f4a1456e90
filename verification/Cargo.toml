[package]
name = "breakfloor"
version = "0.1.0"
edition = "2021"
publish = false

[dependencies]
bincode = "1.3"
crossbeam-channel = "0.5"
fyrox = "0.25"
laminar = "0.5"
serde = { version = "1", features = ["derive"] }
serde_json = "1"
