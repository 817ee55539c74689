[package]
name = "meca-hid"
version = "0.1.0"
edition = "2021"
publish = false

[dependencies]
hidapi = { version = "2", default-features = false, features = ["linux-native-basic-udev"] }
tokio = { version = "1", features = ["rt-multi-thread", "time"] }
iced = { version = "0.14", features = ["canvas", "tokio"] }
