[package]
name = "limits"
version = "0.1.0"
edition = "2021"

[dependencies]
bevy = { version = "=0.18.1", default-features = false, features = [
    "std",
    "async_executor",
    "multi_threaded",
    "bevy_asset",
    "bevy_log",
    "bevy_pbr",
    "bevy_post_process",
    "bevy_sprite_render",
    "bevy_ui_render",
    "default_font",
    "keyboard",
    "mouse",
    "png",
    "tonemapping_luts",
    "zstd_rust",
] }
