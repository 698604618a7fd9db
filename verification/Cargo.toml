[package]
name = "jvl"
version = "0.1.0"
edition = "2021"
publish = false

[dependencies]
serde_json = "*"
jsonschema = "*"
sha2 = "*"
globset = "*"
clap = { version = "4", features = ["derive"] }
clap_complete = "4"
dirs = "*"
ignore = "*"
jiff = "*"
jsonc-parser = "*"
miette = { version = "*", features = ["fancy"] }
owo-colors = { version = "*", features = ["supports-colors"] }
rayon = "*"
reqwest = { version = "*", default-features = false, features = ["blocking", "rustls-tls"] }
schemars = "0.8"
serde = { version = "*", features = ["derive"] }
thiserror = "*"
tokio = { version = "1", features = ["full"] }
tower-lsp-server = "*"
