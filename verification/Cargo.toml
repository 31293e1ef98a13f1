[package]
name = "semantic_code"
version = "0.1.0"
edition = "2021"
publish = false

[dependencies]
serde_yaml = "=0.9.34"
toml = "=0.8.23"
time = { version = "=0.3.55", features = ["formatting"] }
serde = { version = "=1.0.229", features = ["derive"] }
serde_json = "=1.0.154"
oxigraph = { version = "=0.5.13", default-features = false }
sparesults = "=0.3.5"
git2 = { version = "=0.20.4", default-features = false }
anyhow = "=1.0.104"
syn = { version = "=2.0.119", features = ["full"] }
quote = "=1.0.47"
ignore = "=0.4.34"
tokio = { version = "=1.54.1", features = ["rt-multi-thread", "macros"] }
async-trait = "=0.1.92"
tracing = "=0.1.44"
tracing-subscriber = { version = "=0.3.23", features = ["env-filter"] }
rmcp = { version = "=0.16.0", features = ["server", "transport-io", "macros"] }
schemars = "=1.2.3"
rustpython-parser = "=0.4.0"
reqwest = { version = "=0.12.28", default-features = false, features = ["json"] }
hnsw_rs = "=0.3.5"
anndists = "=0.1.5"
dashmap = "=6.2.1"
proc-macro2 = { version = "=1.0.107", features = ["span-locations"] }
