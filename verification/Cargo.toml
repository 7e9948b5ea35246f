[package]
name = "rosemary"
version = "0.1.0"
edition = "2021"
publish = false

[dependencies]
sqlformat = "0.2"
num-format = "0.4"
uuid = "1"
chrono = { version = "0.4", default-features = false, features = ["std"] }
egui = "0.29"
egui_extras = "0.29"
sqlx = { version = "0.8", default-features = false, features = ["postgres", "runtime-tokio", "chrono", "uuid", "bigdecimal"] }
tokio = { version = "1", features = ["rt-multi-thread"] }
rayon = "1"
serde = { version = "1", features = ["derive"] }
dotenv = "0.15"
env_logger = { version = "0.11", default-features = false }
