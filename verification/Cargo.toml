[package]
name = "roundness"
version = "0.1.0"
edition = "2021"
publish = false

[dependencies]
axum = "=0.7.9"
itertools = "=0.15.0"
nalgebra = "=0.30.1"
ncollide2d = "=0.33.0"
serde = { version = "=1.0.229", features = ["derive"] }
tokio = { version = "=1.54.1", features = ["full"] }
voronoi = "=0.1.4"

[dev-dependencies]
ordered-float = "=5.5.0"
