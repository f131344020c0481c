[package]
name = "goout_calendar"
version = "0.1.0"
edition = "2021"
publish = false

[dependencies]
anyhow = "=1.0.104"
attohttpc = { version = "=0.31.0", features = ["json"] }
chrono = { version = "=0.4.45", features = ["serde"] }
icalendar = "=0.9.0"
rocket = "=0.5.2"
serde = { version = "=1.0.229", features = ["derive"] }
serde_json = "=1.0.154"
