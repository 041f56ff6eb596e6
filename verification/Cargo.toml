[package]
name = "autonomousim"
version = "0.1.0"
edition = "2021"
publish = false

[dependencies]
anyhow = "1"
blake3 = "1"
clap = { version = "4", features = ["derive"] }
glam = { version = "*", features = ["serde"] }
libm = "0.2"
rand_chacha = "*"
rand_core = "*"
rayon = "1"
serde = { version = "1", features = ["derive"] }
serde_json = "1"
smallvec = "1"
thiserror = "*"
toml = "*"
