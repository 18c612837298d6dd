[package]
name = "graph_craft"
version = "0.1.0"
edition = "2021"
publish = false

[dependencies]
glam = "*"
serde = { version = "*", features = ["derive"] }
ts-rs = "*"
remain = "*"
