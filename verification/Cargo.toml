[package]
name = "search_core"
version = "0.1.0"
edition = "2021"
publish = false

[dependencies]
scraper = "=0.27.0"
lingua = { version = "=1.8.0", default-features = false, features = ["english", "ukrainian", "turkish", "thai", "swedish", "spanish", "slovene", "slovak", "russian", "romanian", "portuguese", "polish", "korean", "japanese", "italian", "hungarian", "french", "chinese"] }
regex = "=1.13.1"
serde = { version = "=1.0.229", features = ["derive"] }
serde_json = "=1.0.151"
reqwest = { version = "=0.13.5", features = ["blocking", "json"] }
redis = "=1.7.1"
linfa = "=0.8.1"
linfa-reduction = "=0.8.1"
ndarray = "=0.16.1"
