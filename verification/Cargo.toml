[package]
name = "levelup"
version = "0.1.0"
edition = "2021"
publish = false

[dependencies]
anyhow = "1"
blake3 = "1"
bluer = { version = "0.17", features = ["bluetoothd"] }
chrono = "0.4"
clap = { version = "4", features = ["derive"] }
clap_complete = "4"
crossterm = "0.28"
if-addrs = "0.13"
libspa = "*"
mac_oui = { version = "0.4", features = ["with-db"] }
mdns-sd = "0.11"
nix = { version = "0.29", features = ["fs"] }
nucleo-matcher = "0.3"
pipewire = "*"
ratatui = "0.29"
rusqlite = { version = "0.32", features = ["bundled"] }
sd-notify = "0.4"
serde = { version = "1", features = ["derive"] }
serde_json = "1"
tokio = { version = "1", features = ["full"] }
toml = "0.8"
tracing = "0.1"
tracing-subscriber = { version = "0.3", features = ["env-filter"] }
wayland-client = "0.31"
wayland-protocols-wlr = { version = "0.3", features = ["client"] }
