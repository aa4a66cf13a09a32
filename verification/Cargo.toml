[package]
name = "soundfont_player"
version = "0.1.0"
edition = "2021"
publish = false

[dependencies]
oxisynth = "*"
flate2 = "*"
tar = "*"
zip = { version = "*", default-features = false, features = ["deflate"] }
serde = { version = "*", features = ["derive"] }
serde_json = "*"
