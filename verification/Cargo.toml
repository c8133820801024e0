[package]
name = "rustycan"
version = "0.1.0"
edition = "2021"
publish = false

[dependencies]
atty = "0.2"
axum = { version = "0.8", default-features = false, features = ["http1", "json", "tokio"] }
can-dbc = "=8.1.0"
chrono = { version = "=0.4.45", default-features = false, features = ["clock", "std"] }
clap = { version = "4", default-features = false, features = ["std", "derive", "help", "usage", "error-context"] }
dirs = "6"
ed25519-dalek = { version = "=2.2.0", default-features = false, features = ["std", "fast"] }
egui = { version = "=0.31.1", default-features = false, features = ["default_fonts"] }
egui_plot = { version = "=0.31.0", default-features = false }
embedded-can = "0.4"
futures-lite = { version = "2", default-features = false }
getrandom = "0.3"
host-can = { version = "=0.1.5", features = ["pcan"] }
libc = "0.2"
nusb = "=0.2.9"
rusb = "=0.9.4"
serde = { version = "1", features = ["derive"] }
serde_json = "=1.0.154"
sha2 = "=0.10.9"
socketcan = { version = "=3.6.2", default-features = false }
tokio = { version = "1", features = ["rt-multi-thread", "net", "sync", "time"] }
tokio-stream = { version = "0.1", default-features = false, features = ["sync"] }
ureq = { version = "3", default-features = false }
