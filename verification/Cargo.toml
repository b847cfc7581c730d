[package]
name = "hilbert_anim"
version = "0.1.0"
edition = "2021"
publish = false

[dependencies]
anyhow = "*"
bpaf = { version = "*", features = ["derive"] }
image = "*"
kdam = { version = "*", features = ["rayon"] }
palette = "*"
rayon = "*"
webp-animation = "*"

[dev-dependencies]
fast_hilbert = "*"
