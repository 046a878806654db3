[package]
name = "gltf_components"
version = "0.1.0"
edition = "2021"
publish = false

[dependencies]
ron = "0.8"
