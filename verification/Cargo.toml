[package]
name = "codewandler_audio"
version = "0.1.0"
edition = "2021"
publish = false

[dependencies]
anyhow = "1"
cpal = "0.15"
crossbeam-channel = "0.5"
rodio = { version = "0.19", default-features = false }
rubato = "0.15"
tracing = "0.1"
