[package]
name = "markdown_ui"
version = "0.1.0"
edition = "2021"
publish = false

[dependencies]
anyhow = "1"
bytes = "1"
chromiumoxide = { version = "*", default-features = false, features = ["tokio-runtime"] }
futures = "0.3"
rusqlite = { version = "*", features = ["bundled"] }
serde = { version = "1", features = ["derive"] }
shiva = { version = "1.4.9", default-features = false, features = ["markdown", "html"] }
tokio = { version = "1", features = ["rt", "time"] }
