[package]
name = "gras"
version = "0.1.0"
edition = "2021"
publish = false

[dependencies]
fastrand = "2"
serde_json = "1"
serde = { version = "1", features = ["derive"] }
log = "0.4"
rayon = "1"
ctrlc = "3"
flodl = "*"
