[package]
name = "taxi"
version = "0.1.0"
edition = "2021"
publish = false

[dependencies]
rand = "0.7"
rand_pcg = "0.2"
float-cmp = "0.6"
rayon = "1"
serde = { version = "1", features = ["derive"] }
toml = "0.5"
termion = "1"
crossterm = "0.14"
tui = { version = "0.8", default-features = false, features = ["crossterm"] }
