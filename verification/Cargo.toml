[package]
name = "simd_popcnt"
version = "0.2.0"
edition = "2021"
publish = false

[dependencies]
libc = "0.2"
windows-sys = { version = "0.59", features = ["Win32_System_Threading"] }
