[package]
name = "comu"
version = "0.1.0"
edition = "2021"
publish = false

[dependencies]
actix-web = "4"
bcrypt = "*"
chrono = { version = "0.4", features = ["serde"] }
diesel = { version = "2", features = ["postgres", "r2d2", "chrono", "uuid"] }
dotenvy = "*"
env_logger = "*"
futures = "0.3"
jsonwebtoken = "9"
log = "0.4"
once_cell = "*"
pulldown-cmark = "*"
serde = { version = "1", features = ["derive"] }
serde_json = "1"
uuid = { version = "1", features = ["serde", "v4"] }
