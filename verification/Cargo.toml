[package]
name = "spacegame_collision"
version = "0.1.0"
edition = "2021"
publish = false

[dependencies]
shrev = "*"
hecs = "*"
glam = "*"
serde = "*"
serde_derive = "*"
serde_json = "*"
