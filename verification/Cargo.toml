[package]
name = "tile_picker"
version = "0.1.0"
edition = "2021"
publish = false

[dependencies]
raylib = "5"
serde = { version = "1", features = ["derive"] }
toml = "0.8"
