[package]
name = "bmpwatch"
version = "0.1.0"
edition = "2021"
publish = false

[dependencies]
bgpkit-parser = { version = "0.16", default-features = false, features = ["parser"] }
bytes = "1"
hex = "0.4"
regex = "1"
serde = { version = "1", features = ["derive"] }
serde_json = "1"
anyhow = "1"
clap = { version = "4", features = ["derive"] }
ctrlc = "3"
ratatui = "0.29"
rdkafka = "0.36"
ureq = "3"
