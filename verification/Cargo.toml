[package]
name = "rusterizer"
version = "0.1.0"
edition = "2021"
publish = false

[dependencies]
glam = "=0.34.1"
gltf = "=0.16.0"
minifb = "=0.29.0"
stb_image = "=0.3.0"
