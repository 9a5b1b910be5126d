[package]
name = "gltf_hulls"
version = "0.1.0"
edition = "2021"
publish = false

[dependencies]
rapier3d = "*"
nalgebra = "*"
gltf = "*"
clap = { version = "*", features = ["derive"] }
serde_json = "*"
