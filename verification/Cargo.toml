[package]
name = "particle_life"
version = "0.1.0"
edition = "2021"
publish = false

[dependencies]
rand = "0.8"
stopwatch = "0.0.7"
palette = "0.7"
ggez = { version = "0.9", default-features = false }
