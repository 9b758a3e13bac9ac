[package]
name = "cadmus"
version = "0.1.0"
edition = "2021"
publish = false

[dependencies]
serde = { version = "1", features = ["derive"] }
serde_json = "1"
clap = { version = "4", features = ["derive"] }
color-print = "0.3"
chrono = "0.4"
rayon = "1"
