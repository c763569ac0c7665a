[package]
name = "cinderella"
version = "0.1.0"
edition = "2021"
publish = false

[dependencies]
duct = "=0.13.7"
env_logger = "=0.7.1"
evalexpr = "=5.1.0"
getopts = "=0.2.24"
git2 = "=0.13.25"
lettre = "=0.9.6"
lettre_email = "=0.9.4"
rand = "=0.7.3"
rmp-serde = "1"
rpassword = "=4.0.5"
serde = { version = "=1.0.229", features = ["derive"] }
sodiumoxide = "=0.2.7"
toml = { version = "=0.5.11", features = ["preserve_order"] }
