[package]
name = "voxel_world"
version = "0.1.0"
edition = "2021"
publish = false

[dependencies]
bevy = { version = "0.6", default-features = false, features = ["render"] }
building-blocks = { version = "0.7", default-features = false, features = ["mesh"] }
noise = "0.7"
simdnoise = "3.1"
