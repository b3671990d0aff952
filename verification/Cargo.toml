[package]
name = "fdtd_room"
version = "0.1.0"
edition = "2021"
publish = false

[dependencies]
dotenv = "*"
human_bytes = "*"
ndarray = "*"
ocl = "*"
piston_window = "*"
