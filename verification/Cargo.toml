[package]
name = "beacon_register"
version = "0.1.0"
edition = "2021"
publish = false

[dependencies]
critical-section = { version = "1", features = ["std"] }
ieee80211 = { version = "0.5", default-features = false }
esp-alloc = "0.6"
esp-hal = { version = "0.23", features = ["esp32"] }
esp-println = { version = "0.13", features = ["esp32", "log"] }
esp-wifi = { version = "0.12", features = ["esp32", "wifi", "sniffer"] }
