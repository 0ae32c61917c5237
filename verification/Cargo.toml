[package]
name = "slmeter"
version = "0.1.0"
edition = "2021"
publish = false

[dependencies]
ringbuf = "0.4"
cpal = "0.15"
tokio = { version = "1", features = ["rt-multi-thread", "time", "macros"] }
chrono = "0.4"
anyhow = "1"
log = "0.4"
rustfft = "6"
num = "0.4"
