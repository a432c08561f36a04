[package]
name = "dpr"
version = "0.1.0"
edition = "2021"
publish = false

[dependencies]
rand = "0.8"
mysql_async = "*"
tokio = { version = "1", features = ["full"] }
anyhow = "1"
structopt = "0.3"
toml = "*"
serde = { version = "1", features = ["derive"] }
thiserror = "1"
