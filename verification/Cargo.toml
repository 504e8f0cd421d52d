[package]
name = "evolver"
version = "0.1.0"
edition = "2021"
publish = false

[dependencies]
nalgebra = "0.32"
num-bigint = "0.4"
num-integer = "0.1"
num-traits = "0.2"
pyo3 = "0.20"
rand = "0.8"
rand_distr = "0.4"
serde = { version = "1", features = ["derive"] }
serde_json = "1"
sha2 = "0.10"
uuid = { version = "1", features = ["v4"] }
