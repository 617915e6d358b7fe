[package]
name = "asthetic_clipboard"
version = "0.1.0"
edition = "2021"
publish = false

[dependencies]
anyhow = "1"
arboard = "3"
chrono = { version = "0.4", features = ["serde"] }
crossterm = "0.28"
directories = "5"
glib = "0.20"
gtk4 = { version = "0.9", features = ["v4_10"] }
hex = "0.4"
image = { version = "0.25", default-features = false, features = ["png"] }
ratatui = "0.29"
serde = { version = "1", features = ["derive"] }
serde_json = "1"
sha2 = "0.10"
