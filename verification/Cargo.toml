[package]
name = "minishell"
version = "0.1.0"
edition = "2021"

[dependencies]
anyhow = "1"
rustyline = { version = "*", default-features = false, features = ["derive"] }
