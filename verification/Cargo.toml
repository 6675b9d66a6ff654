[package]
name = "skyline"
version = "0.1.0"
edition = "2021"
publish = false

[dependencies]
anyhow = "=1.0.104"
chrono = "=0.4.45"
dirs = "=7.0.0"
notify = "=8.2.1"
serde = { version = "=1.0.229", features = ["derive"] }
serde_json = "=1.0.154"
toml = "=1.1.8"
niri-ipc = "=26.4.0"
sysinfo = "=0.40.1"
tokio = { version = "1", features = ["rt", "sync", "time", "macros"] }
tracing = "0.1"
tracing-subscriber = { version = "0.3", features = ["env-filter"] }
hyprland = "*"
system-tray = "*"
libpulse-binding = "*"
