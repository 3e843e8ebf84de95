[package]
name = "mit_lint"
version = "0.1.0"
edition = "2021"
publish = false

[dependencies]
mit-commit = "*"
regex = "*"
miette = "*"
thiserror = "*"
serde = { version = "*", features = ["derive"] }
serde_json = "*"
toml = "*"

[dev-dependencies]
quickcheck = "*"
