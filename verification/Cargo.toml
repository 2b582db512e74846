[package]
name = "contact_form"
version = "0.1.0"
edition = "2021"
publish = false

[dependencies]
chrono = "*"
lettre = { version = "*", default-features = false, features = ["smtp-transport", "builder"] }
axum = "*"
tokio = { version = "*", features = ["rt-multi-thread", "macros", "net"] }
tower-http = { version = "*", features = ["cors", "trace"] }
serde = { version = "*", features = ["derive"] }
serde_json = "*"
clap = { version = "*", features = ["derive", "env"] }
anyhow = "*"
tracing = "*"
tracing-subscriber = { version = "*", features = ["env-filter"] }
tracing-error = "*"
atty = "*"
