[package]
name = "nu_plugin_dbus"
version = "0.1.0"
edition = "2021"
publish = false

[dependencies]
dbus = { version = "=0.9.12", features = ["vendored"] }
nu-plugin = "=0.114.1"
nu-protocol = "=0.114.1"
serde = { version = "=1.0.229", features = ["derive"] }
serde-xml-rs = "=0.6.0"
