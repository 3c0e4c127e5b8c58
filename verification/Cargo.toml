[package]
name = "rgb_wallet"
version = "0.1.0"
edition = "2021"
publish = false

[dependencies]
amplify_num = "=0.4.1"
base64 = "=0.13.1"
bdk = { version = "=0.23.0", default-features = false, features = ["electrum", "keys-bip39", "sqlite-bundled"] }
bitcoin = { version = "=0.28.1", features = ["base64"] }
bp-core = "=0.8.1"
chrono = "=0.4.22"
electrum-client = "=0.10.2"
futures = "=0.3.34"
internet2 = "=0.8.4"
lnpbp = "=0.8.0"
psbt = "=0.8.5"
rgb-std = "=0.8.2"
reqwest = { version = "0.11", default-features = false, features = ["blocking", "json"] }
rgb20 = "=0.8.0"
rgb_rpc = "=0.8.4"
sea-orm = { version = "=0.9.3", default-features = false, features = ["macros"] }
serde = { version = "1", features = ["derive"] }
serde_json = "1"
slog = "2"
stens = "=0.7.1"
strict_encoding = "=0.8.2"
