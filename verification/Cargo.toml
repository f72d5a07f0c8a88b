[package]
name = "motion_capture_mk5"
version = "0.1.0"
edition = "2021"
publish = false

[dependencies]
image = { version = "=0.25.10", default-features = false }
nokhwa = { version = "=0.10.11", default-features = false, features = ["camera-sync-impl"] }
eframe = { version = "=0.22.0", default-features = false, features = ["default_fonts", "glow", "persistence"] }
egui = "=0.22.0"
serde = { version = "=1.0.229", features = ["derive"] }
env_logger = { version = "=0.10.2", default-features = false }
log = "=0.4.34"
wasm-bindgen-futures = "=0.4.79"
