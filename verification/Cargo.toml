[package]
name = "cavegame"
version = "0.1.0"
edition = "2021"
publish = false

[dependencies]
serde = { version = "1", features = ["derive"] }
bincode = "1"
noise = "0.9"
image = { version = "0.25", default-features = false, features = ["png"] }
zip = { version = "2", default-features = false, features = ["deflate"] }
futures-lite = "2"
bevy = { version = "0.14", default-features = false }
