[package]
name = "folder_watcher"
version = "0.1.0"
edition = "2021"
publish = false

[dependencies]
notify = "*"
notify-debouncer-mini = "*"
log = "*"
env_logger = "*"
clap = { version = "*", features = ["derive"] }
tungstenite = "*"

[dev-dependencies]
serde_json = "*"
