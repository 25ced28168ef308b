[package]
name = "tracker_cluster"
version = "0.1.0"
edition = "2021"
publish = false

[dependencies]
tonic = "0.14"
tonic-prost = "0.14"
prost = "0.14"
axum = "0.7"
redis = { version = "0.27", features = ["tokio-comp"] }
sqlx = { version = "0.8", default-features = false, features = ["postgres", "runtime-tokio"] }
tokio = { version = "1", features = ["full"] }
dotenvy = "0.15"
async-trait = "0.1"
