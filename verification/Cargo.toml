[package]
name = "localserver"
version = "0.1.0"
edition = "2021"
publish = false

[dependencies]
uuid = { version = "1", features = ["v4"] }
mio = { version = "1", features = ["os-poll", "net"] }
