[package]
name = "quickhull"
version = "0.1.0"
edition = "2021"
publish = false

[dependencies]
rayon = "1"
image = { version = "0.25", default-features = false, features = ["png"] }
itertools = "0.14"
palette = "0.7"
serde = { version = "1", features = ["derive"] }
serde_derive = "1"
serde-pickle = "1"
structopt = "0.3"
