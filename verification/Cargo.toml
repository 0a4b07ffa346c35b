[package]
name = "clash_verge"
version = "0.1.0"
edition = "2021"
publish = false

[dependencies]
anyhow = "=1.0.104"
dunce = "=1.0.5"
open = "=5.4.5"
smartstring = "=1.0.1"
tokio = { version = "=1.54.1", features = ["fs"] }
runas = "=1.2.0"
deelevate = "=0.2.0"
winreg = "=0.56.0"
tauri-utils = "2"
