[package]
name = "openinfer"
version = "0.1.0"
edition = "2021"
publish = false

[dependencies]
anyhow = "1"
ash = "0.37"
bytemuck = { version = "1", features = ["derive"] }
memmap2 = "0.9"
once_cell = "1"
rand = "0.8"
rayon = "1"
serde = { version = "1", features = ["derive"] }
uuid = { version = "1", features = ["v4", "serde"] }
