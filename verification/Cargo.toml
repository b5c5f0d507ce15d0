[package]
name = "nesting_geometry"
version = "0.1.0"
edition = "2021"
publish = false

[dependencies]
anyhow = "1"
cavalier_contours = "*"
float-cmp = "*"
geo-buffer = "*"
geo-types = "*"
itertools = "*"
log = "0.4"
ordered-float = "*"
rayon = "1"
serde = { version = "1", features = ["derive"] }

[dev-dependencies]
serde_json = "1"
