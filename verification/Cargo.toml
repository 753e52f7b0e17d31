[package]
name = "minesweeper"
version = "0.1.0"
edition = "2021"
publish = false

[dependencies]
bevy = { version = "0.16", default-features = false, features = ["std", "bevy_asset", "bevy_color", "bevy_core_pipeline", "bevy_picking", "bevy_render", "bevy_sprite", "bevy_sprite_picking_backend", "bevy_state", "bevy_text", "bevy_window"] }
rand = "0.9"
