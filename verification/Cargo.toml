[package]
name = "notebookx"
version = "0.1.0"
edition = "2021"
publish = false

[dependencies]
chrono = { version = "=0.4.45", default-features = false, features = ["std", "now", "serde"] }
uuid = { version = "=1.29.0", features = ["v4"] }
serde = { version = "=1.0.229", features = ["derive"] }
clap = { version = "=4.6.7", default-features = false, features = ["std", "derive", "help", "usage"] }
eframe = { version = "=0.29.1", default-features = false, features = ["glow", "default_fonts", "x11"] }
rfd = { version = "=0.15.4", default-features = false, features = ["xdg-portal", "tokio"] }

[dev-dependencies]
tempfile = "=3.27.0"
