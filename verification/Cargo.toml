[package]
name = "rts_core"
version = "0.1.0"
edition = "2021"
publish = false

[dependencies]
bevy = { version = "0.17", default-features = false, features = ["bevy_pbr", "bevy_ui", "bevy_text", "bevy_gizmos", "bevy_state"] }
rand = "0.9"
ron = "0.11"
serde = { version = "1", features = ["derive"] }
serde_json = "1"
thiserror = "2"
