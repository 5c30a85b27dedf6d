[package]
name = "cargo_limit"
version = "0.1.0"
edition = "2021"
publish = false

[dependencies]
anyhow = "1"
atomig = { version = "*", features = ["derive"] }
atty = "0.2"
cargo_metadata = "*"
ctrlc = "3"
libc = "0.2"
serde = { version = "1", features = ["derive"] }
serde_json = "1"
toml = "*"
