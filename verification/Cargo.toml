[package]
name = "meter_telegram"
version = "0.1.0"
edition = "2021"
publish = false

[dependencies]
chrono = { version = "0.4", default-features = false, features = ["std"] }
serialport = { version = "4", default-features = false }
