[package]
name = "radicle-context-cob"
version = "0.1.0"
edition = "2021"
publish = false

[dependencies]
radicle = "=0.25.1"
nonempty = "=0.9.0"
# Not used by this crate's code: radicle takes indexmap without its default
# features, yet its `IndexMap`/`IndexSet` fields need the `std` feature to build.
indexmap = { version = "=2.14.2", features = ["std"] }
serde = { version = "=1.0.229", features = ["derive"] }
serde_json = "=1.0.154"
thiserror = "=2.0.21"
log = "=0.4.35"
env_logger = "=0.11.11"
clap = { version = "=4.6.7", features = ["derive"] }
