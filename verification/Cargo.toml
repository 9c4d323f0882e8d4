[package]
name = "core_sim"
version = "0.1.0"
edition = "2021"
publish = false

[dependencies]
anyhow = "1"
chrono = { version = "0.4", default-features = false, features = ["std"] }
csv = "1"
plotters = { version = "0.3", default-features = false, features = ["bitmap_backend", "bitmap_encoder", "line_series"] }
rand = "0.8"
rand_distr = "0.4"
serde = { version = "1", features = ["derive"] }
