[package]
name = "experiment_buckets"
version = "0.1.0"
edition = "2021"
publish = false

[dependencies]
serde_json = "1"
chrono = { version = "0.4", features = ["serde"] }
serde = { version = "1", features = ["derive"] }
log = "0.4"
uniffi = "0.29"
actix-web = { version = "4", default-features = false, features = ["macros"] }
diesel = { version = "2.2", default-features = false, features = ["postgres_backend", "chrono", "serde_json"] }
fred = { version = "9", default-features = false }
leptos = { version = "0.6", features = ["csr"] }
web-sys = { version = "0.3", features = ["MouseEvent"] }
