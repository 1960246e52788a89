[package]
name = "spotify_search"
version = "0.1.0"
edition = "2021"
publish = false

[dependencies]
clap = "2"
serde = { version = "1", features = ["derive"] }
serde_json = "1"
tokio = { version = "1", features = ["macros", "rt-multi-thread"] }
unidecode = "0.3"
warp = { version = "0.3", default-features = false }
