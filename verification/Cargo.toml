[package]
name = "projeto_cg"
version = "0.1.0"
edition = "2021"
publish = false

[dependencies]
gl33 = "*"
glfw = "*"
image = { version = "*", default-features = false, features = ["png", "jpeg"] }
