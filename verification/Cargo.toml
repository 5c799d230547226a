[package]
name = "one_thousand_deaths"
version = "0.1.0"
edition = "2021"
publish = false

[dependencies]
byteorder = "1"
fnv = "1"
rand = { version = "0.8", features = ["small_rng"] }
rand_distr = "0.4"
postcard = { version = "1", features = ["use-std"] }
serde = { version = "1", features = ["derive"] }
chrono = "0.4"
crossterm = "0.27"
log = "0.4"
simplelog = "0.12"
