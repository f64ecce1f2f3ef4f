[package]
name = "sudocurs"
version = "0.1.0"
edition = "2021"
publish = false

[dependencies]
rand = "=0.8.8"
chrono = "=0.4.45"
colored = "=2.2.0"
serde = { version = "=1.0.229", features = ["derive"] }
serde_json = "=1.0.154"
sdl2 = { version = "=0.35.2", features = ["image", "ttf", "unsafe_textures"] }
