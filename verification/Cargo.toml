[package]
name = "mask-parser"
version = "0.1.0"
edition = "2021"
publish = false

[dependencies]
pulldown-cmark = { version = "0.5", default-features = false }
clap = "2"
colored = "2"
serde = { version = "1", features = ["derive"] }
serde_json = "1"
