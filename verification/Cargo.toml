[package]
name = "mod_manager"
version = "0.1.0"
edition = "2021"
publish = false

[dependencies]
anyhow = "=1.0.104"
chrono = { version = "=0.4.45", default-features = false, features = ["clock", "std"] }
eframe = { version = "=0.22.0", default-features = false, features = ["default_fonts", "glow"] }
env_logger = "=0.10.2"
quick-xml = "=0.31.0"
rfd = { version = "0.12", default-features = false, features = ["xdg-portal"] }
serde = { version = "=1.0.229", features = ["derive"] }
serde_json = "=1.0.154"
walkdir = "=2.5.0"
