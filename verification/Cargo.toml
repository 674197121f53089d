[package]
name = "fighter"
version = "0.1.0"
edition = "2021"
publish = false

[dependencies]
anyhow = "1"
env_logger = "0.9"
log = "0.4"
macroquad = "0.3"
macroquad-platformer = "0.1"
macroquad-tiled = "0.1"
notify = "5"
ron = "0.8"
serde = { version = "1", features = ["derive"] }
