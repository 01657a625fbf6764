[package]
name = "zeitfresser"
version = "0.1.0"
edition = "2021"
publish = false

[dependencies]
chrono = { version = "=0.4.45", features = ["serde"] }
clap = "=3.2.25"
diesel = { version = "=1.4.8", features = ["sqlite", "chrono"] }
directories-next = "=2.0.0"
rusqlite = { version = "=0.25.4", features = ["bundled", "chrono"] }
serde = { version = "=1.0.229", features = ["derive"] }
