[package]
name = "health-widget"
version = "0.1.0"
edition = "2021"
publish = false

[dependencies]
dirs = "6"
egui = { version = "0.31", default-features = false, features = ["default_fonts"] }
egui_term = "0.1.0"
evdev = "0.13"
image = { version = "0.25", default-features = false, features = ["png", "jpeg", "webp"] }
libc = "0.2"
resvg = { version = "0.45", default-features = false, features = ["text", "system-fonts"] }
rusqlite = { version = "0.32", features = ["bundled"] }
serde = { version = "1", features = ["derive"] }
serde_json = "1"
signal-hook = "0.3"
tiny_http = { version = "0.12", features = ["ssl-rustls"] }
zbus = { version = "5", default-features = false, features = ["tokio", "blocking-api"] }
