[package]
name = "translate_bot"
version = "0.1.0"
edition = "2021"
publish = false

[dependencies]
log = "0.4"
pretty_env_logger = "0.5"
reqwest = { version = "0.12", default-features = false, features = ["json", "rustls-tls"] }
serde_json = "1"
# Transitive dependency of teloxide, pinned because takecell 0.1.2 raised its
# minimum rustc above the toolchain this crate builds with.
takecell = "=0.1.1"
teloxide = { version = "0.13", default-features = false, features = ["ctrlc_handler", "rustls"] }
tokio = { version = "1", features = ["rt-multi-thread", "macros"] }
