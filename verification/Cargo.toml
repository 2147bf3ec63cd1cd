[package]
name = "nmea"
version = "0.1.0"
edition = "2021"
publish = false

[dependencies]
arrayvec = { version = "0.7", default-features = false, features = ["serde"] }
chrono = { version = "0.4", default-features = false, features = ["serde"] }
serde = { version = "1.0", default-features = false, features = ["derive"] }
serde_with = { version = "3", default-features = false, features = ["macros", "chrono_0_4"] }
