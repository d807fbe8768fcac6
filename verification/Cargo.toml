[package]
name = "stalcraft_clan_tool"
version = "0.1.0"
edition = "2021"
publish = false

[dependencies]
anyhow = "1"
calamine = "*"
chrono = "0.4"
clap = { version = "4", features = ["derive"] }
fs2 = "0.4"
home = "*"
image = { version = "*", default-features = false, features = ["png"] }
notify-rust = "*"
rayon = "1"
reqwest = { version = "*", default-features = false, features = ["blocking", "rustls-tls"] }
serde = { version = "1", features = ["derive"] }
serde_json = "1"
strsim = "*"
tesseract = "*"
toml = "*"
xlsxwriter = "*"
