[package]
name = "day-piece-lottie"
version = "0.1.0"
edition = "2021"
publish = false

[dependencies]
serde_json = "=1.0.154"
log = "=0.4.35"
day-core = "=0.6.3"
day-pieces = "=0.6.3"
day-reactive = "=0.6.3"
day-spec = "=0.6.3"
day-async = "=0.6.3"
day-piece-webview = "=0.4.4"
