[package]
name = "zipper_editor"
version = "0.1.0"
edition = "2021"
publish = false

[dependencies]
bevy = { version = "=0.13.2", default-features = false }
clap = { version = "4", features = ["derive"] }
