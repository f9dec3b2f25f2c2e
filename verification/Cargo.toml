[package]
name = "nostr_mesh_core"
version = "0.1.0"
edition = "2021"
publish = false

[dependencies]
nostr = { version = "=0.45.5", features = ["nip04", "os-rng"] }
uuid = { version = "=1.27.0", features = ["v4"] }
futures = "*"
futures-channel = "*"
futures-timer = "*"
futures-util = "*"
async-trait = "*"
crossbeam-channel = "*"
log = "*"
