[package]
name = "polisim"
version = "0.1.0"
edition = "2021"
publish = false

[dependencies]
anyhow = "1"
clap = { version = "4", features = ["derive"] }
nalgebra = "0.33"
petgraph = "0.6"
rand = "0.8"
serde = { version = "1", features = ["derive"] }
toml = "0.8"
