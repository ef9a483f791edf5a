[package]
name = "kdbx"
version = "0.1.0"
edition = "2021"
publish = false

[dependencies]
arboard = { version = "=3.6.1", default-features = false }
clap = { version = "=4.6.7", default-features = false, features = ["std", "help", "usage", "derive", "env"] }
clap_complete = "=4.6.11"
ctrlc = "=3.5.2"
hmac = "=0.12.1"
keepass = { version = "=0.7.33", features = ["save_kdbx4"] }
libc = "=0.2.190"
sha1 = "=0.10.7"
sha2 = "=0.10.9"
