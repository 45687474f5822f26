[package]
name = "tors"
version = "0.1.0"
edition = "2021"
publish = false

[dependencies]
anyhow = "1"
bincode = { version = "2", features = ["serde"] }
chrono = { version = "0.4", features = ["serde"] }
clap = { version = "3", features = ["derive"] }
colored = "2"
crossterm = "0.25"
dirs = "4"
json = "0.12"
nanoid = "0.4"
num-integer = "0.1"
rayon = "1"
serde = { version = "1", features = ["derive"] }
serde_json = "1"
sled = "0.34"
tui = "0.19"
unicode-width = "0.1"
