[package]
name = "quanergy_client"
version = "0.1.0"
edition = "2021"
publish = false

[dependencies]
byteorder = "1"
sha2 = "0.10"
quick-xml = "*"
serde = { version = "1", features = ["derive"] }
serde_json = "1"
toml = "*"
thiserror = "*"
time = { version = "0.3", features = ["formatting"] }
tracing = "0.1"
rusqlite = { version = "*", features = ["bundled"] }
pcd-rs = "*"
ureq = { version = "*", default-features = false }
clap = { version = "4", features = ["derive"] }
tracing-subscriber = { version = "0.3", features = ["env-filter"] }
nalgebra = "*"
