[package]
name = "baza"
version = "0.1.0"
edition = "2021"
publish = false

[dependencies]
anyhow = "1"
arboard = "3"
chrono = "0.4"
clap = { version = "4", features = ["derive"] }
directories = "6"
reqwest = { version = "0.12", default-features = false, features = ["json"] }
rpassword = "7"
serde = { version = "1", features = ["derive"] }
tiberius = { version = "0.12", default-features = false, features = ["tds73"] }
tokio = { version = "1", features = ["full"] }
tokio-postgres = "0.7"
tokio-util = { version = "0.7", features = ["compat"] }
toml = "0.8"
uuid = { version = "1", features = ["v4"] }
