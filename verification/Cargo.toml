[package]
name = "taskdoc"
version = "0.1.0"
edition = "2021"
publish = false

[dependencies]
heck = "*"
chrono = "*"
clap = { version = "*", features = ["derive"] }
reqwest = { version = "*", default-features = false, features = ["blocking"] }
scraper = "*"
