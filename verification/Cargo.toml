[package]
name = "text_paint"
version = "0.1.0"
edition = "2021"
publish = false

[dependencies]
line_2d = "*"
coord_2d = "*"
rgb_int = "*"
serde = { version = "*", features = ["derive"] }
bincode = "1"
toml = "*"
