[package]
name = "bevy_ui_render"
version = "0.1.0"
edition = "2021"
publish = false

[dependencies]
bevy_app = "0.9"
bevy_asset = "0.9"
bevy_core_pipeline = "0.9"
bevy_ecs = "0.9"
bevy_math = "0.9"
bevy_reflect = "0.9"
bevy_render = "0.9"
bevy_sprite = "0.9"
bevy_text = "0.9"
bevy_transform = "0.9"
bevy_utils = "0.9"
bevy_window = "0.9"
bytemuck = { version = "1", features = ["derive"] }
