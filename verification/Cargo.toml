[package]
name = "rustfetch"
version = "0.1.0"
edition = "2021"
publish = false

[dependencies]
clap = { version = "*", features = ["derive"] }
colored = "*"
dirs = "*"
display-info = "*"
pollster = "*"
serde = { version = "*", features = ["derive"] }
sysinfo = "*"
toml = "*"
wgpu = { version = "*", default-features = false }
