[package]
name = "atelier"
version = "0.1.0"
edition = "2021"
rust-version = "1.95.0"
publish = false

[dependencies]
anyhow = "1"
clap = { version = "4", features = ["derive"] }
ctrlc = "3"
futures = "0.3"
gix-hash = "=0.25.1"
jj-lib = { version = "=0.44.0", default-features = false, features = ["git"] }
# No code here names it: jj-lib brings it in through gix, and its later releases
# ask for a newer compiler than rust-version says.
kstring = "=2.0.2"
notify = "=8.2.1"
pollster = "=1.0.1"
rusqlite = { version = "=0.41.1", features = ["bundled"] }
serde = { version = "1", features = ["derive"] }
sha2 = "=0.11.1"
similar = "=3.2.1"
thiserror = "=2.0.21"
time = { version = "=0.3.55", features = ["formatting"] }
toml = "=1.1.8"
tracing-subscriber = { version = "0.3", features = ["env-filter"] }
