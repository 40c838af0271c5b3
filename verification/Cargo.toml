[package]
name = "tui_tetris"
version = "0.1.0"
edition = "2021"
publish = false

[dependencies]
rltk = { version = "0.8", default-features = false, features = ["crossterm"] }
