[package]
name = "bookforge"
version = "0.1.0"
edition = "2021"
publish = false

[dependencies]
chrono = "0.4"
clap = { version = "4", features = ["derive"] }
dirs = "5"
kamadak-exif = "0.5"
image = { version = "0.25", default-features = false, features = ["jpeg", "png", "webp"] }
serde = { version = "1", features = ["derive"] }
time = { version = "0.3", features = ["formatting"] }
toml = "0.8"
zip = { version = "2", default-features = false, features = ["deflate"] }
