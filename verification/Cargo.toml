[package]
name = "cosmic-session"
version = "0.1.0"
edition = "2021"
publish = false

[dependencies]
async-signals = "=0.4.0"
color-eyre = "=0.6.5"
dirs = "=5.0.1"
freedesktop-desktop-entry = "=0.7.19"
futures-util = "=0.3.34"
launch-pad = "=1.0.1"
libc = "=0.2.191"
log-panics = "=2.1.0"
rustix = "=0.38.44"
sendfd = { version = "=0.4.5", features = ["tokio"] }
serde = { version = "=1.0.229", features = ["derive"] }
serde_json = "=1.0.154"
shell-words = "=1.1.1"
tokio = { version = "=1.54.1", features = ["full"] }
tokio-util = "=0.7.20"
tracing = "=0.1.44"
tracing-journald = "=0.3.2"
tracing-subscriber = { version = "=0.3.23", features = ["env-filter"] }
zbus = { version = "=4.4.0", default-features = false, features = ["tokio"] }
zbus_systemd = { version = "=0.25600.1", features = ["systemd1"] }
