[package]
name = "vscr-core"
version = "0.1.0"
edition = "2021"
publish = false

[dependencies]
heapless = "=0.8.0"
serde = { version = "=1.0.229", features = ["derive"] }
serde_json = "=1.0.154"
toml = "=0.8.23"
anyhow = "=1.0.104"
bevy = { version = "=0.15.3", default-features = false, features = ["bevy_sprite", "bevy_ui", "bevy_text", "bevy_window", "png"] }
