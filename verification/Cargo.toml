[package]
name = "config-loader"
version = "0.1.0"
edition = "2021"
publish = false

[dependencies]
anyhow = "=1.0.104"
clap = "=3.2.25"
druid = { version = "=0.8.3", features = ["raw-win-handle"] }
home = "=0.5.12"
lazy_static = "=1.5.1"
serde = { version = "=1.0.229", features = ["derive"] }
toml = "=0.5.11"
winapi = { version = "=0.3.9", features = ["errhandlingapi", "libloaderapi", "windef", "winerror", "winuser"] }
yansi = "=0.5.1"
