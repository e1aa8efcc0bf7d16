[package]
name = "uno"
version = "0.1.0"
edition = "2021"
publish = false

[dependencies]
actix = "0.13"
actix-session = { version = "*", features = ["cookie-session"] }
actix-web = { version = "4", default-features = false, features = ["macros", "cookies"] }
actix-web-actors = "4"
actix-ws = "*"
rand = "0.8"
serde = { version = "1", features = ["derive"] }
