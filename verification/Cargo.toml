[package]
name = "rusty_funge"
version = "0.1.0"
edition = "2021"
publish = false

[dependencies]
anyhow = "1"
chrono = { version = "0.4", default-features = false, features = ["clock", "std"] }
clap = { version = "4", features = ["derive"] }
cursive = { version = "0.20", default-features = false, features = ["crossterm-backend"] }
rand = "0.8"
regex = "1"
thiserror = "1"
