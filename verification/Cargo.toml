[package]
name = "chess_engine"
version = "0.1.0"
edition = "2021"
publish = false

[dependencies]
chess = "3"
ggez = "0.7"
glam = { version = "0.20", features = ["mint"] }
oorandom = "11"
