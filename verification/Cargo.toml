[package]
name = "alfred_alt"
version = "0.1.0"
edition = "2021"
publish = false

[dependencies]
anyhow = "1"
directories = "*"
once_cell = "1"
serde = { version = "1", features = ["derive"] }
serde_json = "1"
tantivy = "*"
thiserror = "*"
