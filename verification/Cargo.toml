[package]
name = "mlp"
version = "0.1.0"
edition = "2021"
publish = false

[dependencies]
rand = "=0.9.5"
rand_distr = "=0.5.1"
rayon = "=1.12.0"
serde = { version = "=1.0.229", features = ["derive"] }
serde_json = "=1.0.154"
