[package]
name = "raytracer"
version = "0.1.0"
edition = "2021"
publish = false

[dependencies]
nalgebra = { version = "*", features = ["serde-serialize"] }
num = "*"
num-traits = "*"
num_cpus = "*"
ron = "*"
scoped_threadpool = "*"
sdl2 = { version = "*", features = ["ttf"] }
serde = { version = "*", features = ["derive"] }
