[package]
name = "ferrite"
version = "0.1.0"
edition = "2021"
publish = false

[dependencies]
ropey = "=1.6.1"
chrono = "=0.4.45"
log = "=0.4.35"
serde = { version = "=1.0.229", features = ["derive"] }
serde_json = "=1.0.154"
dirs = "=7.0.0"
sys-locale = "=0.3.2"
egui = { version = "=0.37.0", features = ["serde"] }
