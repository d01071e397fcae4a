[package]
name = "keyboard_dances"
version = "0.1.0"
edition = "2021"
publish = false

[dependencies]
directories = "6"
serde = { version = "1", features = ["derive"] }
toml = "*"
anyhow = "1"
clap = { version = "4", features = ["derive"] }
libc = "0.2"
symphonia = "0.6"
rodio = { version = "*", default-features = false }
rfd = { version = "0.15", default-features = false, features = ["gtk3"] }
input = "*"
