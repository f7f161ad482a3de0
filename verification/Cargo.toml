[package]
name = "roam_markup"
version = "0.1.0"
edition = "2021"
publish = false

[dependencies]
anyhow = "*"
fxhash = "*"
handlebars = "*"
itertools = "*"
rayon = "*"
serde = { version = "*", features = ["derive"] }
serde_json = "*"
