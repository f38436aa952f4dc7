[package]
name = "tf2_demo_player"
version = "0.1.0"
edition = "2021"
publish = false

[dependencies]
anyhow = "=1.0.104"
serde = { version = "=1.0.229", features = ["derive"] }
serde_json = "=1.0.154"
steamid-ng = "=3.0.0"
tf-demo-parser = "*"
getopts = "0.2"
chrono = "0.4"
rand = "0.8"
