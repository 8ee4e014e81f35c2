[package]
name = "sprite_compiler"
version = "0.1.0"
edition = "2021"
publish = false

[dependencies]
lodepng = "3"
serde = { version = "1", features = ["derive"] }
serde_yaml = "0.8"
structopt = "0.3"
syn = "1"
walkdir = "2"
