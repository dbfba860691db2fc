[package]
name = "bevy_dialogue"
version = "0.1.0"
edition = "2021"
publish = false

[dependencies]
bevy = { version = "=0.19.1", default-features = false, features = ["bevy_asset"] }
bevy_rand = { version = "0.15", features = ["wyrand"] }
indexmap = { version = "=2.14.2", features = ["serde"] }
isolang = { version = "=2.4.0", features = ["serde"] }
rand = "=0.10.3"
ron = "0.12"
serde = { version = "=1.0.229", features = ["derive"] }
