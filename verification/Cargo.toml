[package]
name = "aim_trainer"
version = "0.1.0"
edition = "2021"
publish = false

[dependencies]
bevy = { version = "=0.17.3", default-features = false }
rand = "=0.9.5"
rodio = { version = "*", default-features = false, features = ["symphonia-all"] }
zip = { version = "=9.2.2", default-features = false, features = ["deflate"] }

[dev-dependencies]
nom = "=8.0.0"
