[package]
name = "goose_mlx_lm"
version = "0.1.0"
edition = "2021"
publish = false

[dependencies]
mlx-rs = { version = "0.25", default-features = false }
serde = { version = "1", features = ["derive"] }
serde_json = "1"
thiserror = "2"
tokenizers = { version = "0.21", default-features = false, features = ["fancy-regex"] }
