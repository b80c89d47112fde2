[package]
name = "raytracer"
version = "0.1.0"
edition = "2021"
publish = false

[dependencies]
rand = "=0.8.8"
serde = { version = "=1.0.229", features = ["derive"] }
serde_tuple = "=1.1.3"
toml = "=1.1.7"
image = "=0.25.10"
indicatif = { version = "=0.18.6", features = ["rayon"] }
rayon = "=1.12.0"
