[package]
name = "dota_tools"
version = "0.1.0"
edition = "2021"
publish = false

[dependencies]
anyhow = "=1.0.104"
dirs = "=6.0.0"
eframe = { version = "=0.30.0", default-features = false, features = ["default_fonts", "glow", "x11"] }
egui_extras = { version = "=0.30.0", default-features = false, features = ["file", "image"] }
regex = "=1.13.1"
reqwest = { version = "=0.12.28", default-features = false, features = ["rustls-tls"] }
tokio = { version = "=1.54.1", features = ["fs", "io-util", "rt-multi-thread", "net", "time"] }
winreg = "0.55"
