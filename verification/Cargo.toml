[package]
name = "j3treetext"
version = "0.1.0"
edition = "2021"
publish = false

[dependencies]
encoding_rs = "0.8"
rusqlite = { version = "*", features = ["bundled"] }
