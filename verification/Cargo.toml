[package]
name = "explorer_core"
version = "0.1.0"
edition = "2021"
publish = false

[dependencies]
directories = "6.0.0"
dunce = "1.0.5"
notify = "8.2"
rusqlite = { version = "0.39.0", features = ["bundled"] }
trash = "5.2"
walkdir = "2.5.0"
