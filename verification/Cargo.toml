[package]
name = "henge_desktop"
version = "0.1.0"
edition = "2021"
publish = false

[dependencies]
serde = { version = "1", features = ["derive"] }
serde_json = "1"
anyhow = "1"
winit = "0.29"
softbuffer = "0.4"
png = "0.17"
gilrs = "0.10"
