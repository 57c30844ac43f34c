[package]
name = "calendarbot"
version = "0.1.0"
edition = "2021"
publish = false

[dependencies]
anyhow = "1"
notify-debouncer-full = "*"
serde = { version = "1", features = ["derive"] }
serde_json = "1"
