[package]
name = "impacted"
version = "1.0.0"
edition = "2021"
publish = false

[dependencies]
smallvec = "1"
thiserror = "1"
bevy_math = "0.8"
