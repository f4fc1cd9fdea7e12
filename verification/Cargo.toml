[package]
name = "file_organizer"
version = "0.1.0"
edition = "2021"
publish = false

[dependencies]
blake3 = "*"
chrono = "*"
clap = { version = "*", features = ["derive"] }
notify = "*"
num_cpus = "*"
