[package]
name = "boxdraw"
version = "0.1.0"
edition = "2021"
publish = false

[dependencies]
winit = "0.29"
fontdue = "0.8"
softbuffer = "0.4"
clap = { version = "4", features = ["derive"] }
