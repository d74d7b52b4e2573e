[package]
name = "snake_grid"
version = "0.1.0"
edition = "2021"
publish = false

[dependencies]
bevy = { version = "=0.8.1", default-features = false, features = ["render", "bevy_winit", "png", "x11"] }
bevy_tweening = "=0.5.0"
derive_more = "=0.99.20"
itertools = "=0.10.5"
iyes_loopless = "=0.7.1"
rand = { version = "=0.8.8", features = ["small_rng"] }
