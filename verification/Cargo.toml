[package]
name = "mine_schedule"
version = "0.1.0"
edition = "2021"
publish = false

[dependencies]
glam = "=0.34.2"
good_lp = { version = "=1.15.3", default-features = false, features = ["highs"] }
highs = "=2.4.0"
highs-sys = "=1.15.0"
russcip = "=0.11.0"
serde = { version = "=1.0.229", features = ["derive"] }
