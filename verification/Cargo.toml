[package]
name = "bluetooth-monitor"
version = "0.1.0"
edition = "2021"
publish = false

[dependencies]
hex = "=0.4.3"
serde = { version = "=1.0.229", features = ["derive"] }
toml = "=0.8.23"
dirs = "=5.0.1"
anyhow = "=1.0.104"
tokio = { version = "=1.54.1", features = ["full"] }
futures = "=0.3.34"
bluer = { version = "=0.17.4", features = ["bluetoothd", "rfcomm"] }
ksni = "=0.2.2"
