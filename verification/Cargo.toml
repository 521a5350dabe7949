[package]
name = "file_organiser"
version = "0.1.0"
edition = "2021"
publish = false

[dependencies]
serde = { version = "*", features = ["derive"] }
serde_json = "*"
base64 = "*"
pdf-extract = "*"
reqwest = { version = "*", default-features = false, features = ["blocking", "json"] }
rusqlite = { version = "*", features = ["bundled"] }
notify = "*"
trash = "*"
rusty-tesseract = "*"
dotenv = "*"
