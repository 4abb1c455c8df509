[package]
name = "logbook"
version = "0.1.0"
edition = "2021"
publish = false

[dependencies]
chrono = "*"
csv = "*"
geographiclib-rs = "*"
rusqlite = { version = "*", features = ["bundled"] }
simconnect = "*"
xplm = "*"
