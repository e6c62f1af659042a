[package]
name = "exrtool-core"
version = "0.1.0"
edition = "2021"
publish = false

[dependencies]
anyhow = "1"
clap = { version = "4", features = ["derive"] }
exr = "1"
image = { version = "0.24", default-features = false, features = ["png", "openexr"] }
nalgebra = { version = "0.32", default-features = false, features = ["std"] }
rayon = "1"
serde = { version = "1", features = ["derive"] }
serde_json = "1"
serde_yaml = "0.9"
