[package]
name = "koru_find"
version = "0.1.0"
edition = "2021"
publish = false

[dependencies]
regex = "1"
bytes = "1"
ignore = "0.4"
num_cpus = "1"
clap = { version = "4", features = ["derive"] }
