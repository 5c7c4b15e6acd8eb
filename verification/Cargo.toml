[package]
name = "pic_core"
version = "0.1.0"
edition = "2021"
publish = false

[dependencies]
sha2 = "0.10"
image = { version = "0.25.10", default-features = false, features = ["png", "jpeg"] }
serde = { version = "1", features = ["derive"] }
serde_json = "1"
clap = { version = "4", features = ["derive"] }
tempfile = "3"
rustix = { version = "1", features = ["fs"] }
fast_image_resize = "5.5.0"
bytemuck = "1"
ab_glyph = "0.2"
rustybuzz = "*"
unicode-script = "0.5"
