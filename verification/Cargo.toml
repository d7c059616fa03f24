[package]
name = "daedal"
version = "0.1.0"
edition = "2021"
publish = false

[dependencies]
image = { version = "0.24", default-features = false, features = ["png"] }
sdl2 = { version = "0.35", features = ["gfx"] }
structopt = "0.3"
anyhow = "1"
