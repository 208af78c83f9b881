[package]
name = "ublox_gps_tec"
version = "0.1.0"
edition = "2021"
publish = false

[dependencies]
argh = "*"
chrono = "*"
crossterm = "*"
directories = "*"
flate2 = "*"
serde = { version = "*", features = ["derive"] }
serde_json = "*"
serialport = { version = "*", default-features = false }
tar = "*"
