[package]
name = "geotag"
version = "0.1.0"
edition = "2021"
publish = false

[dependencies]
anyhow = "*"
chrono = { version = "=0.4.45", features = ["serde"] }
clap = { version = "*", features = ["derive"] }
dotenv = "*"
gpx = "=0.10.0"
itertools = "*"
reqwest = { version = "*", default-features = false, features = ["json"] }
serde = { version = "*", features = ["derive"] }
serde_json = "*"
tokio = { version = "*", features = ["rt-multi-thread", "macros"] }

[dev-dependencies]
time = "*"
