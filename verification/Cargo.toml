[package]
name = "klikbca"
version = "0.1.0"
edition = "2021"
publish = false

[dependencies]
anyhow = "=1.0.104"
chrono = "=0.4.45"
http = "=1.5.0"
isahc = "=2.0.1"
scraper = "=0.27.0"
structopt = "=0.3.26"
termion = "=1.5.6"
tui = { version = "=0.19.0", default-features = false, features = ["termion"] }
unicode-width = "=0.1.14"
url = "=2.5.8"
