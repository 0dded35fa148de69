[package]
name = "photo_archive"
version = "0.1.0"
edition = "2021"
publish = false

[dependencies]
anyhow = "*"
clap = { version = "*", features = ["derive"] }
crc = "*"
crossbeam = "*"
image = "*"
inquire = "*"
kamadak-exif = "*"
serde = { version = "*", features = ["derive"] }
toml = "*"

[dev-dependencies]
chrono = "*"
serde_json = "*"
