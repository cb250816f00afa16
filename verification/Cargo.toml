[package]
name = "hanzi_sort"
version = "0.1.0"
edition = "2021"
publish = false

[dependencies]
clap = { version = "4", features = ["derive"] }
clap_complete = "4"
serde = { version = "1", features = ["derive"] }
smallvec = "1"
toml = "*"
unicode-width = "*"
