[package]
name = "keyword_dataset_rs"
version = "0.1.0"
edition = "2021"
publish = false

[dependencies]
chrono = "*"
clap = { version = "*", features = ["derive"] }
clap_derive = "*"
indexmap = "*"
indicatif = "*"
log = "*"
lopdf = "*"
pdf-extract = "*"
regex = "*"
rusqlite = { version = "*", features = ["bundled"] }
serde = { version = "*", features = ["derive"] }
serde_json = "*"
thiserror = "*"
threadpool = "*"
tokio = { version = "*", features = ["macros", "rt-multi-thread"] }
ureq = "*"
