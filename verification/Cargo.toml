[package]
name = "ngit"
version = "0.1.0"
edition = "2021"
publish = false

[dependencies]
nostr = "0.32"
nostr-sdk = "0.32"
nostr-database = "0.32"
nostr-sqlite = "0.32"
nostr-signer = "0.32"
git2 = "0.18"
clap = { version = "4", features = ["derive"] }
console = "0.15"
indicatif = "0.17"
futures = "0.3"
async-trait = "0.1"
anyhow = "1"
