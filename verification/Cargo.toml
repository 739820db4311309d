[package]
name = "yfiles"
version = "0.1.0"
edition = "2021"
publish = false

[dependencies]
anyhow = "*"
base64 = "*"
chrono = "*"
clap = { version = "*", features = ["derive"] }
ctrlc = "*"
dirs = "*"
humansize = "*"
libc = "*"
mime_guess = "*"
once_cell = "*"
serde = { version = "*", features = ["derive"] }
serde_json = "*"
trash = "*"
