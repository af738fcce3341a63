[package]
name = "echo_core"
version = "0.1.0"
edition = "2021"
publish = false

[dependencies]
mio = { version = "*", default-features = false, features = ["os-poll", "net"] }
