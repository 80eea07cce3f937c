[package]
name = "pacrid"
version = "0.1.0"
edition = "2021"
publish = false

[dependencies]
anyhow = "1"
chrono = { version = "0.4", features = ["serde"] }
clap = { version = "4", features = ["derive"] }
directories = "*"
humansize = "2"
inquire = "*"
libc = "0.2"
serde = { version = "1", features = ["derive"] }
serde_json = "1"
toml = "*"
tracing = "0.1"
tracing-subscriber = "0.3"
trash = "*"
walkdir = "2"
which = "*"
