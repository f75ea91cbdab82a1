[package]
name = "blk2json"
version = "0.1.0"
edition = "2021"
publish = false

[dependencies]
anyhow = "1"
dirs = "5"
fltk = "1"
serde = { version = "1", features = ["derive"] }
serde_json = "1"
