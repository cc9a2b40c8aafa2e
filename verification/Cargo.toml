[package]
name = "gaia_rag"
version = "0.1.0"
edition = "2021"
publish = false

[dependencies]
serde_json = "*"
dirs = "*"
serde = { version = "*", features = ["derive"] }
tokio = { version = "*", features = ["full"] }
reqwest = { version = "*", default-features = false, features = ["json"] }
actix-web = { version = "*", default-features = false, features = ["macros"] }
which = "*"
anyhow = "*"
pdf-extract = "*"
