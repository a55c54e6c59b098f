[package]
name = "publish-mqtt"
version = "0.1.0"
edition = "2021"
publish = false

[dependencies]
async-channel = "=1.9.0"
dbus = { version = "=0.9.12", features = ["futures", "vendored"] }
futures = "=0.3.34"
log = "=0.4.35"
rumqttc = "=0.1.2"
tokio = { version = "=0.2.25", features = ["macros", "rt-threaded", "time"] }
