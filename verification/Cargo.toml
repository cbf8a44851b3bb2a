[package]
name = "solfege"
version = "0.1.0"
edition = "2021"

[dependencies]
libc = "0.2"
serde = { version = "1", features = ["derive"] }
toml = "*"
