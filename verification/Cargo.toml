[package]
name = "ghrls"
version = "0.1.0"
edition = "2021"
publish = false

[dependencies]
regex = "1"
url = "2"
clap = { version = "4", features = ["derive"] }
clap_complete = "4"
flate2 = "1"
tar = "0.4"
zip = { version = "*", default-features = false, features = ["deflate"] }
ureq = { version = "3", features = ["json"] }
serde = { version = "1", features = ["derive"] }
thiserror = "2"

[dev-dependencies]
tempfile = "3"
