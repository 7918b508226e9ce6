[package]
name = "titanic_cv"
version = "0.1.0"
edition = "2021"
publish = false

[dependencies]
anyhow = "1"
lgbm = "*"
polars = { version = "*", features = ["csv", "lazy"] }
rand = { version = "0.8", features = ["small_rng"] }
