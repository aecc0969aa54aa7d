[package]
name = "vizia_runtime"
version = "0.1.0"
edition = "2021"
publish = false

[dependencies]
accesskit = "=0.25.1"
glutin = "=0.29.1"
femtovg = { version = "=0.3.7", default-features = false }
morphorm = "=0.3.0"
