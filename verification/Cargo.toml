[package]
name = "vgplay"
version = "0.1.0"
edition = "2021"
publish = false

[dependencies]
image = { version = "0.25", default-features = false, features = ["png"] }
rodio = "*"
softbuffer = "0.4"
symphonia = "0.5"
winit = "0.29"
winreg = "*"
