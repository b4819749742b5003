[package]
name = "chromist"
version = "0.1.0"
edition = "2021"
publish = false

[dependencies]
heck = "0.5"
base64 = "0.22"
serde = { version = "1", features = ["derive"] }
serde_json = "1"
url = "2"
thiserror = "2"
indexmap = "2"
proc-macro2 = "1"
quote = "1"
fnv = "1"
futures = "0.3"
async-tungstenite = { version = "0.31", default-features = false }
