[package]
name = "qubits"
version = "0.1.0"
edition = "2021"
publish = false

[dependencies]
approx = { version = "=0.5.1", features = ["num-complex"] }
nalgebra = "=0.33.3"
num-traits = "=0.2.19"
rand = "=0.8.8"
