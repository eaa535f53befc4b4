[package]
name = "local_words"
version = "0.1.0"
edition = "2021"
publish = false

[dependencies]
anyhow = "1"
calamine = { version = "0.38", default-features = false }
crossbeam-channel = "0.5"
csv = "1"
directories-next = "2"
eframe = { version = "0.37", default-features = false, features = ["default_fonts", "glow", "x11"] }
egui-file-dialog = { version = "0.15", default-features = false }
fern = "0.7"
fluent-templates = { version = "0.15", default-features = false }
i18n-embed = { version = "*", features = ["fluent-system", "desktop-requester"] }
i18n-embed-fl = "*"
json = "0.12"
log = "0.4"
nom = "8"
rust-embed = "8"
versions = "*"
words-count = "*"
zip = { version = "9", default-features = false, features = ["deflate"] }
