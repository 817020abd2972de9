[package]
name = "agenda"
version = "0.1.0"
edition = "2021"
publish = false

[dependencies]
chrono = { version = "0.4", default-features = false, features = ["std", "clock", "serde"] }
getopts = "0.2"
rustbreak = "1"
serde = { version = "1", features = ["derive"] }
serde_derive = "1"
toml = "0.5"
