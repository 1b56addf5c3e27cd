[package]
name = "typst_spellcheck"
version = "0.1.0"
edition = "2021"
publish = false

[dependencies]
clap = { version = "4", features = ["derive"] }
fern = "*"
futures = "0.3"
languagetool-rust = "*"
log = "0.4"
owo-colors = "*"
serde = { version = "1", features = ["derive"] }
tokio = { version = "1", features = ["macros", "rt-multi-thread"] }
toml = "*"
typst-syntax = "*"
