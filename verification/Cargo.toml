[package]
name = "omm"
version = "0.1.0"
edition = "2021"
publish = false

[dependencies]
fluent = "=0.17.0"
fluent-syntax = "=0.12.0"
intl-memoizer = "=0.5.3"
unic-langid = "=0.9.6"
thiserror = "=2.0.21"
serde = { version = "=1.0.229", features = ["derive"] }
ron = "=0.12.3"
tokio = { version = "=1.54.1", features = ["sync", "rt", "macros"] }
async-trait = "=0.1.92"
tracing = "=0.1.44"
bevy_app = "=0.20.1"
bevy_ecs = "=0.20.1"
bevy_reflect = "=0.20.1"
