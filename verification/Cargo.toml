[package]
name = "icp_practice"
version = "0.1.0"
edition = "2021"
publish = false

[dependencies]
anyhow = "=1.0.104"
kdtree = "=0.7.0"
ndarray = "=0.15.6"
ndarray-linalg = { version = "=0.16.0", default-features = false }
ndarray-rand = "=0.14.0"
nohash-hasher = "=0.2.0"
pcd-rs = { version = "0.12", features = ["derive"] }
plotters = { version = "=0.3.7", default-features = false, features = ["bitmap_backend", "bitmap_encoder", "line_series", "point_series"] }
rayon = "=1.12.0"
regex = "=1.13.1"
serde = { version = "=1.0.229", features = ["derive"] }
serde_json = "=1.0.154"
