[package]
name = "when3meet"
version = "0.1.0"
edition = "2021"
publish = false

[dependencies]
anyhow = "=1.0.104"
chrono = "=0.4.45"
chrono-tz = "=0.8.6"
clap = { version = "=4.6.7", features = ["derive"] }
headless_chrome = "0.9"
iana-time-zone = "=0.1.65"
thiserror = "=1.0.69"
url = "=2.5.8"
