[package]
name = "station_photos"
version = "0.1.0"
edition = "2021"
publish = false

[dependencies]
anyhow = "1"
calamine = { version = "*", default-features = false }
kamadak-exif = "*"
once_cell = "1"
serde = { version = "1", features = ["derive"] }
serde_json = "1"
tokio = { version = "1", features = ["fs", "sync", "rt", "macros"] }
xlsxwriter = "*"
xml-rs = "*"
