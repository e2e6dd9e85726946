[package]
name = "roundabout_simulation"
version = "0.1.0"
edition = "2021"
publish = false

[dependencies]
bevy = { version = "0.17", default-features = false, features = ["std"] }
bimap = "0.6"
clap = { version = "4", features = ["derive"] }
rand = "0.9"
rand_distr = "0.5"
uom = "0.37"
