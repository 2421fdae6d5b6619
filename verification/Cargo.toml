[package]
name = "breadx_shm"
version = "0.1.0"
edition = "2021"
publish = false

[dependencies]
breadx = { version = "=3.1.0", features = ["shm"] }
libc = "=0.2.190"
