[package]
name = "frustalz"
version = "0.1.0"
edition = "2021"
publish = false

[dependencies]
image = { version = "=0.21.3", default-features = false, features = ["png_codec"] }
rand = "=0.4.6"
rand_derive = "=0.3.1"
num-complex = "=0.2.4"
palette = "=0.4.1"
chrono = "=0.4.45"
structopt = "=0.2.18"

[dev-dependencies]
pathfinding = "*"
