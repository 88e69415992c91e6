[package]
name = "nanai_multifall"
version = "0.1.0"
edition = "2021"
publish = false

[dependencies]
rand_core = "0.10"
bevy_prng = { version = "=0.15.2", features = ["wyrand"] }
bevy_rand = { version = "=0.15.2", features = ["wyrand"] }
bevy = { version = "=0.19.1", default-features = false, features = ["bevy_sprite", "bevy_ui", "bevy_text", "bevy_window", "bevy_log", "bevy_color", "bevy_state", "default_font"] }
