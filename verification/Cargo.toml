[package]
name = "rusty_mjpg"
version = "0.1.0"
edition = "2021"
publish = false

[dependencies]
async-std = "1"
clap = { version = "4", features = ["derive"] }
env_logger = "0.10"
futures = "0.3"
jpeg-decoder = "0.3"
log = "0.4"
tide = { version = "0.16", default-features = false, features = ["h1-server"] }
v4l = "0.14"
