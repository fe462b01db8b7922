[package]
name = "hisi-crypto-ws63"
version = "0.1.0"
edition = "2021"
publish = false

[dependencies]
hisi-crypto = "=0.1.0-alpha.5"
hisi-hal = { version = "=0.7.0-alpha.9", default-features = false, features = ["chip-ws63", "unstable"] }
hisi-rom-sys = { version = "=0.1.0-alpha.4", features = ["chip-ws63"] }
ws63-pac = { version = "=0.4.6", features = ["critical-section"] }
zeroize = "=1.9.1"
critical-section = "=1.2.0"

[dev-dependencies]
critical-section = { version = "=1.2.0", features = ["std"] }
