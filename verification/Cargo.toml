[package]
name = "transcribe_offline"
version = "0.1.0"
edition = "2021"
publish = false

[dependencies]
regex = "1"
serde_json = "1"
strsim = "0.11"
anyhow = "1"
open = "5"
ico = "0.4"
cpal = "0.16"
symphonia = { version = "0.5", features = ["all"] }
reqwest = { version = "0.12", default-features = false, features = ["blocking", "native-tls"] }
eframe = { version = "0.33", default-features = false, features = ["default_fonts", "glow", "x11"] }
