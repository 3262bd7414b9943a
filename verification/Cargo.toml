[package]
name = "watt"
version = "0.1.0"
edition = "2021"
publish = false

[dependencies]
anyhow = "1"
ctrlc = "3"
log = "0.4"
num_cpus = "1"
serde = { version = "1", features = ["derive"] }
toml = "0.8"
yansi = "1"
