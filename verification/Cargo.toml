[package]
name = "bluez_client"
version = "0.1.0"
edition = "2021"
publish = false

[dependencies]
dbus = { version = "0.9", features = ["vendored"] }
dbus-tokio = "0.7"
tokio = { version = "1", features = ["rt"] }
