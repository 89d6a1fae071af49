[package]
name = "cargo_languagetool"
version = "0.1.0"
edition = "2021"
publish = false

[dependencies]
sha2 = "=0.10.9"
sled = "=0.34.7"
annotate-snippets = "=0.11.5"
clap = { version = "=4.6.7", features = ["derive", "env"] }
color-eyre = "=0.6.5"
directories = "=6.0.0"
dotenv = "=0.15.0"
env_logger = "=0.11.11"
log = "=0.4.34"
languagetool-rust = { version = "=2.1.5", default-features = false }
proc-macro2 = { version = "=1.0.107", features = ["span-locations"] }
syn = "=2.0.119"
tokio = { version = "=1.53.2", features = ["full"] }
walkdir = "=2.5.0"
