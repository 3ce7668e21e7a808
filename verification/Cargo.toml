[package]
name = "pop_ci"
version = "0.1.0"
edition = "2021"
publish = false

[dependencies]
anyhow = "*"
better-panic = "*"
chrono = "*"
debian-changelog = "*"
fern = "*"
futures = "*"
log = "*"
once_cell = "*"
reqwest = { version = "*", default-features = false, features = ["json"] }
serde = { version = "*", features = ["derive"] }
thiserror = "*"
tokio = { version = "*", features = ["full"] }
toml = "*"
