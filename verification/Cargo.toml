[package]
name = "jet"
version = "0.1.0"
edition = "2021"
publish = false

[dependencies]
meowhash = "*"
sha2 = "*"
tar = "*"
libflate = "*"
rand = "*"
reqwest = { version = "*", default-features = false, features = ["blocking", "rustls-tls"] }
clap = { version = "*", features = ["derive"] }
quick-xml = { version = "*", features = ["serialize"] }
serde = { version = "*", features = ["derive"] }
serde_json = "*"
dirs = "*"
tempfile = "*"
symlink = "*"
colored = "*"
