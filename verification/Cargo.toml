[package]
name = "bevy_prototype_2d_graphics"
version = "0.1.0"
edition = "2021"
publish = false

[dependencies]
bevy = { version = "=0.1.3", default-features = false }
# bevy_asset 0.1.3 watches files through this pre-release of notify and does
# not compile against the releases that followed it.
notify = "=5.0.0-pre.2"
