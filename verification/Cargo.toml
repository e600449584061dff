[package]
name = "trusdx_bridge"
version = "0.1.0"
edition = "2021"
publish = false

[dependencies]
serialport = { version = "*", default-features = false }
libpulse-binding = "*"
libpulse-simple-binding = "*"
termios = "*"
anyhow = "*"
