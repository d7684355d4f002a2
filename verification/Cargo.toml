[package]
name = "lumberjack"
version = "0.1.0"
edition = "2021"
publish = false

[dependencies]
regex = "1"
rusqlite = { version = "0.31", features = ["bundled"] }
