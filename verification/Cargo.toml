[package]
name = "fold"
version = "0.1.0"
edition = "2021"
publish = false

[dependencies]
fjall = "*"
fxhash = "*"
frontmatter-gen = "*"
serde = { version = "1", features = ["derive"] }
notify = "*"
notify-debouncer-full = "*"
anyhow = "1"
