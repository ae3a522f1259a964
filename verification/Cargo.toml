[package]
name = "threes"
version = "0.1.0"
edition = "2021"
publish = false

[dependencies]
rand_xoshiro = "*"
rand = "*"
serde = { version = "*", features = ["derive"] }
serde_json = "*"
rayon = "*"
histogram = "*"
termion = "*"
clap = "*"
