[package]
name = "rkvm"
version = "0.1.0"
edition = "2021"
publish = false

[dependencies]
slab = "0.4"
tokio = { version = "1", features = ["full"] }
tokio-rustls = "0.24"
rustls-pemfile = "1"
clap = { version = "4", features = ["derive"] }
toml = "0.8"
serde = { version = "1", features = ["derive"] }
tracing = "0.1"
tracing-subscriber = { version = "0.3", features = ["env-filter"] }
thiserror = "1"
rand = "0.8"
winapi = { version = "0.3", features = ["winuser"] }
windows-sys = { version = "0.59", features = ["Win32_Foundation", "Win32_Security", "Win32_System_JobObjects", "Win32_System_RemoteDesktop", "Win32_System_Threading", "Win32_System_SystemServices"] }
windows-service = "0.7"
