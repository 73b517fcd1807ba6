[package]
name = "earbuddy"
version = "0.1.0"
edition = "2021"
publish = false

[dependencies]
eframe = { version = "0.31", default-features = false, features = ["default_fonts", "glow", "x11"] }
ort = { version = "=2.0.0-rc.10", default-features = false, features = ["std", "load-dynamic"] }
serde = { version = "1", features = ["derive"] }
serde_json = "1"
ureq = { version = "3", default-features = false, features = ["rustls"] }
