[package]
name = "opensearch_transport"
version = "0.1.0"
edition = "2021"
publish = false

[dependencies]
anyhow = "=1.0.104"
flate2 = "=1.1.10"
globset = "=0.4.20"
reqwest = { version = "=0.11.27", features = ["blocking", "native-tls"] }
tar = "=0.4.46"
