[package]
name = "lingo"
version = "0.1.0"
edition = "2021"
publish = false

[dependencies]
global-hotkey = "0.7"
get-selected-text = "0.1.6"
reqwest = { version = "0.12", default-features = false }
serde = { version = "1", features = ["derive"] }
serde_json = "1"
thiserror = "2"
log = "0.4"
tokio = { version = "1", features = ["time", "sync", "macros", "rt"] }
async-trait = "0.1"
