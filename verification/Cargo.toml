[package]
name = "wf_overlay"
version = "0.1.0"
edition = "2021"
publish = false

[dependencies]
anyhow = "=1.0.104"
ashpd = "=0.12.3"
bevy = { version = "=0.17.3", default-features = false }
crossbeam-channel = "=0.5.17"
evdev = { version = "=0.13.2", features = ["tokio"] }
image = { version = "=0.25.10", default-features = false }
ocrs = "=0.13.1"
pipewire = "=0.9.2"
rten = "=0.26.0"
rten-imageproc = "=0.26.0"
serde = { version = "=1.0.229", features = ["derive"] }
serde_json = "=1.0.154"
simsearch = "=0.4.0"
toml_edit = { version = "=0.25.17", features = ["serde"] }
