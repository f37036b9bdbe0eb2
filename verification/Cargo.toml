[package]
name = "anime_tournament"
version = "0.1.0"
edition = "2021"
publish = false

[dependencies]
rand = "0.8"
diesel = { version = "1.4", features = ["mysql"] }
dotenv = "0.15"
dialoguer = "0.10"
