[package]
name = "escom"
version = "0.1.0"
edition = "2021"
publish = false

[dependencies]
chrono = "=0.4.45"
crossbeam-channel = "=0.5.17"
directories = "=6.0.0"
eframe = { version = "=0.37.0", default-features = false, features = ["default_fonts", "glow", "persistence", "x11"] }
egui_extras = { version = "=0.37.0", default-features = false, features = ["file", "http", "image"] }
encoding_rs = "=0.8.44"
fontdb = "=0.24.0"
log = "=0.4.35"
regex = "=1.13.1"
rfd = { version = "=0.17.2", default-features = false, features = ["xdg-portal"] }
serde = { version = "=1.0.229", features = ["derive"] }
serde_json = "=1.0.154"
serialport = { version = "=4.10.1", default-features = false }
toml = "=1.1.8"
unicode-width = "=0.2.3"
vte = "=0.15.0"
