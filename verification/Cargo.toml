[package]
name = "oxid-relay"
version = "0.1.0"
edition = "2021"
publish = false

[dependencies]
anyhow = "1"
async-trait = "0.1"
chrono = "=0.4.45"
clap = { version = "4", features = ["derive", "env"] }
dotenvy = "0.15"
fs4 = "=1.1.0"
ipnet = "=2.12.2"
lettre = { version = "=0.11.23", default-features = false, features = ["builder", "smtp-transport", "tokio1-native-tls"] }
mail-parser = "0.11"
mailin-embedded = "=0.8.3"
regex = "=1.13.1"
reqwest = { version = "0.12", features = ["blocking"] }
rhai = { version = "=1.27.0", features = ["serde", "sync"] }
serde = { version = "1", features = ["derive"] }
serde_json = "1"
sqlx = { version = "0.8", default-features = false, features = ["runtime-tokio", "sqlite"] }
thiserror = "2"
tokio = { version = "1", features = ["full"] }
toml = "=1.1.8"
tracing = "0.1"
tracing-subscriber = { version = "=0.3.23", features = ["env-filter"] }
uuid = { version = "=1.29.0", features = ["v4"] }
windows-service = "=0.8.1"
