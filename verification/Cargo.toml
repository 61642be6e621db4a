[package]
name = "notegraf"
version = "0.1.0"
edition = "2021"
publish = false

[dependencies]
url = "2"
uuid = { version = "1", features = ["v4"] }
pulldown-cmark = { version = "0.9", default-features = false }
pulldown-cmark-to-cmark = "10"
serde = { version = "1", features = ["derive"] }
serde_json = "1"
thiserror = "1"
tokio = { version = "1", features = ["macros", "rt-multi-thread", "sync"] }
futures = "0.3"
actix-web = { version = "4", default-features = false, features = ["macros"] }
actix-files = "0.6"
config = { version = "0.13", default-features = false, features = ["yaml"] }
sqlx = { version = "0.7", default-features = false, features = ["runtime-tokio", "postgres", "uuid", "chrono", "json", "migrate"] }
chrono = { version = "0.4", default-features = false, features = ["clock", "serde"] }
tracing = "0.1"
tracing-subscriber = { version = "0.3", features = ["env-filter"] }
tracing-log = "0.1"
lazy_static = "1"
