[package]
name = "ble_bridge"
version = "0.1.0"
edition = "2021"
publish = false

[dependencies]
tokio = { version = "1", features = ["rt-multi-thread", "sync", "time", "macros"] }
uuid = "1"
btleplug = "0.10"
futures = "0.3"
anyhow = "1"
flutter_rust_bridge = "=1.72.2"
jni = "0.19"
android_logger = "0.13"
log = "0.4"
tracing = "0.1"
