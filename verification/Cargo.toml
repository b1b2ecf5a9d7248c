[package]
name = "lantana"
version = "0.1.0"
edition = "2021"
publish = false

[dependencies]
libloading = "=0.8.9"
log = "=0.4.35"
log4rs = { version = "=1.4.0", features = ["toml_format"] }
chrono = "=0.4.45"
fs2 = "=0.4.3"
ctrlc = "=3.5.2"
toml = "=0.8.23"
serde = "=1.0.229"
serde_derive = "=1.0.229"
winapi = "=0.2.8"
kernel32-sys = "=0.2.2"
