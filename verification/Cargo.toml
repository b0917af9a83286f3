[package]
name = "arenabuddy"
version = "0.1.0"
edition = "2021"
publish = false

[dependencies]
clap = { version = "*", features = ["derive"] }
rusqlite = { version = "*", features = ["bundled"] }
ctrlc = "*"
crossbeam-channel = "*"
notify = "*"
