[package]
name = "pyrite"
version = "0.1.0"
edition = "2021"
publish = false

[dependencies]
glam = "0.29"
tracing = "0.1"
bevy_ecs = { version = "0.16", default-features = false }
bevy_app = { version = "0.16", default-features = false }
