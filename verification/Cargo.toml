[package]
name = "rid_pocket"
version = "0.1.0"
edition = "2021"
publish = false

[dependencies]
crc = "*"
serde = { version = "*", features = ["derive"] }
serde_json = "*"
clap = { version = "*", features = ["derive"] }
anyhow = "*"
rustix = { version = "*", features = ["fs", "termios"] }
