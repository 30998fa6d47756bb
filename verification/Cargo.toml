[package]
name = "supermips"
version = "0.1.0"
edition = "2021"
publish = false

[dependencies]
clap = { version = "4", features = ["derive"] }
rand = "0.8"
sdl2 = "0.37"
spin_sleep = "1"
termimad = "*"
thiserror = "1"
