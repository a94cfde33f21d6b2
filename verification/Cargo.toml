[package]
name = "snipperclipper"
version = "0.1.0"
edition = "2021"
publish = false

[dependencies]
uuid = { version = "1", features = ["v4"] }
xdg = "2"
fs2 = "0.4"
