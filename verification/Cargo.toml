[package]
name = "ditto_replay"
version = "0.1.0"
edition = "2021"
publish = false

[dependencies]
actix-web = { version = "4", default-features = false }
async-trait = "0.1"
axum = { version = "0.6", default-features = false, features = ["tokio", "http1"] }
base64 = "0.21"
bytes = "1"
chrono = { version = "0.4", default-features = false, features = ["clock", "std"] }
clap = { version = "4", features = ["derive"] }
diesel = { version = "2", default-features = false, features = ["postgres_backend"] }
futures-util = { version = "0.3", default-features = false, features = ["std"] }
http = "0.2"
http-body = "0.4"
prettyplease = "0.2"
proc-macro2 = "1"
quote = "1"
redis = { version = "0.23", default-features = false, features = ["aio", "tokio-comp"] }
regex = "1"
reqwest = { version = "0.11", default-features = false, features = ["json"] }
reqwest-middleware = "0.2"
serde = { version = "1", features = ["derive"] }
serde_json = "1"
sqlx = { version = "0.7", default-features = false, features = ["runtime-tokio", "postgres", "uuid", "chrono", "json", "migrate"] }
syn = { version = "2", features = ["full", "extra-traits", "visit-mut"] }
task-local-extensions = "0.1"
thiserror = "1"
tokio = { version = "1", features = ["rt-multi-thread", "macros", "sync", "time"] }
toml = "0.8"
tonic = { version = "0.11", default-features = false }
tower = { version = "0.4", default-features = false, features = ["util"] }
uuid = { version = "1", features = ["v4", "serde"] }
walkdir = "2"
