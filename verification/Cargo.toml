[package]
name = "room_state"
version = "0.1.0"
edition = "2021"
publish = false

[dependencies]
bs58 = "=0.5.1"
dioxus = { version = "=0.5.6", features = ["web"] }
dioxus-free-icons = { version = "=0.8.6", features = ["font-awesome-solid"] }
dioxus-logger = "=0.5.1"
ed25519-dalek = { version = "=2.2.0", features = ["serde"] }
freenet-scaffold = "=0.2.2"
rand = "=0.8.8"
serde = { version = "=1.0.229", features = ["derive"] }
wasm-bindgen-futures = "=0.4.79"
web-sys = { version = "=0.3.106", features = ["Clipboard", "Navigator", "Window"] }
