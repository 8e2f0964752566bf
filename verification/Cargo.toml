[package]
name = "folio-core"
version = "0.1.0"
edition = "2021"
publish = false

[dependencies]
uuid = { version = "1", features = ["v4", "serde"] }
chrono = { version = "0.4", features = ["serde"] }
regex = "1"
loro = "1"
serde = { version = "1", features = ["derive"] }
serde_json = "1"
zip = { version = "2", default-features = false, features = ["deflate"] }
anyhow = "1"
thiserror = "1"
gtk4 = "0.9"
libadwaita = { version = "0.7", features = ["v1_5"] }
glib = "0.20"
gio = "0.20"
pango = "0.20"
pangocairo = "0.20"
cairo-rs = { version = "0.20", features = ["pdf"] }
reqwest = { version = "0.12", default-features = false }
