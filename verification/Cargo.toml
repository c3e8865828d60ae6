[package]
name = "proto_core"
version = "0.1.0"
edition = "2021"
publish = false

[dependencies]
sha2 = "=0.10.9"
minisign-verify = "=0.2.5"
shell-words = "=1.1.1"
semver = "=1.0.28"
version_spec = "=0.11.7"
human-sort = "=0.2.2"
pgp = "=0.21.0"
proto_shim = "=0.9.0"
starbase_utils = { version = "=0.14.10", default-features = false, features = ["hash", "fs-lock"] }
ci_env = "=0.5.3"
serde = { version = "=1.0.229", features = ["derive"] }
serde_json = "=1.0.154"
regex = "=1.13.1"
starbase_archive = "=0.14.7"
lenient_semver = "=0.4.2"

[dev-dependencies]
rand = "=0.8.8"
