[package]
name = "vox_scene"
version = "0.1.0"
edition = "2021"
publish = false

[dependencies]
anyhow = "1"
block-mesh = "=0.2.0"
dot_vox = "=5.1.1"
ndshape = "=0.3.0"
