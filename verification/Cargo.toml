[package]
name = "voxel_core"
version = "0.1.0"
edition = "2021"
publish = false

[dependencies]
bevy_app = { version = "=0.14.2", default-features = false }
bevy_ecs = { version = "=0.14.2", default-features = false }
bevy_input = { version = "=0.14.2", default-features = false, features = ["serialize"] }
bevy_math = { version = "=0.14.2", default-features = false }
bevy_time = { version = "=0.14.2", default-features = false }
bevy_transform = { version = "=0.14.2" }
bevy_window = { version = "=0.14.2", default-features = false }
renet = { version = "=0.0.16", default-features = false, features = ["bevy", "transport"] }
ron = "=0.8.1"
serde = { version = "=1.0.229", features = ["derive"] }
