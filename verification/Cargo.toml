[package]
name = "meridian"
version = "0.1.0"
edition = "2021"
publish = false

[dependencies]
png = "=0.18.1"
symphonia = { version = "=0.6.1", features = ["mp3"] }
tokio = { version = "=1.54.1", features = ["rt", "macros", "sync", "time", "fs", "io-util"] }
crossbeam-channel = "=0.5.17"
cpal = "=0.18.2"
