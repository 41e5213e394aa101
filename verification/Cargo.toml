[package]
name = "crystal_surface_generator"
version = "0.1.0"
edition = "2021"
publish = false

[dependencies]
anyhow = "1"
clap = { version = "4", features = ["derive"] }
csv = "1"
glob = "0.3"
nalgebra = "*"
regex = "1"
serde = { version = "1", features = ["derive"] }
serde_json = "1"
wait-timeout = "0.2"
which = "*"
