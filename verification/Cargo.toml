[package]
name = "kwintool"
version = "0.1.0"
edition = "2021"
publish = false

[dependencies]
regex = "=1.13.1"
serde = { version = "=1.0.229", features = ["derive"] }
clap = { version = "=4.6.7", features = ["derive"] }
dbus = { version = "=0.9.12", features = ["vendored"] }
dbus-crossroads = "=0.5.3"
which = "=8.0.6"
